//! Text as sequences of characters: searching, trimming, splitting, numbers and UTF-8.
use vstd::prelude::*;
use vstd::slice::slice_subrange;
use vstd::utf8::{decode_utf8, encode_utf8, valid_utf8};

verus! {

// ---------------------------------------------------------------------------------------------
// Strings and characters
// ---------------------------------------------------------------------------------------------

/// `String::push` appends one character.
pub assume_specification[ String::push ](s: &mut String, c: char)
    ensures
        final(s)@ == old(s)@.push(c),
;

/// What the error of `String::from_utf8` says of bytes that are not well-formed UTF-8.
pub uninterp spec fn utf8_fault(bytes: Seq<u8>) -> Seq<char>;

/// `String::from_utf8` succeeds exactly on well-formed UTF-8 and gives the text that the bytes
/// encode. Elsewhere its error says, in words that depend on the bytes alone, what is wrong.
#[verifier::external_body]
pub(crate) fn string_from_utf8(bytes: Vec<u8>) -> (res: Result<String, String>)
    ensures
        res is Ok <==> valid_utf8(bytes@),
        res matches Ok(text) ==> text@ == decode_utf8(bytes@),
        res matches Err(words) ==> words@ == utf8_fault(bytes@),
{
    match String::from_utf8(bytes) {
        Ok(text) => Ok(text),
        Err(error) => Err(error.to_string()),
    }
}

/// The text that `String::from_utf8_lossy` makes of bytes that are not well-formed UTF-8.
pub uninterp spec fn utf8_repaired(bytes: Seq<u8>) -> Seq<char>;

/// The text that bytes are, with malformed parts replaced.
pub open spec fn lossy_text(bytes: Seq<u8>) -> Seq<char> {
    if valid_utf8(bytes) {
        decode_utf8(bytes)
    } else {
        utf8_repaired(bytes)
    }
}

/// `String::from_utf8_lossy`: well-formed input is decoded unchanged, and malformed parts become
/// replacement characters.
#[verifier::external_body]
pub(crate) fn string_from_utf8_lossy(bytes: &[u8]) -> (res: String)
    ensures
        valid_utf8(bytes@) ==> res@ == decode_utf8(bytes@),
        !valid_utf8(bytes@) ==> res@ == utf8_repaired(bytes@),
{
    String::from_utf8_lossy(bytes).into_owned()
}

/// The characters of a string.
pub fn to_chars(s: &str) -> (res: Vec<char>)
    ensures
        res@ == s@,
{
    let mut res: Vec<char> = Vec::new();
    for c in it: s.chars()
        invariant
            it.seq() == s@,
            res@ == s@.take(it.index() as int),
    {
        res.push(c);
        assert(s@.take(it.index() as int).push(c) =~= s@.take(it.index() + 1));
    }
    assert(s@.take(s@.len() as int) =~= s@);
    res
}

/// The string of some characters.
pub fn from_chars(chars: &[char]) -> (res: String)
    ensures
        res@ == chars@,
{
    let mut res: String = String::new();
    let n: usize = chars.len();
    let mut i: usize = 0;
    while i < n
        invariant
            i <= n,
            n == chars@.len(),
            res@ == chars@.take(i as int),
        decreases n - i,
    {
        res.push(chars[i]);
        assert(chars@.take(i as int).push(chars@[i as int]) =~= chars@.take(i + 1));
        i += 1;
    }
    assert(chars@.take(n as int) =~= chars@);
    res
}

/// Whether two character sequences are the same.
pub fn same(a: &[char], b: &[char]) -> (res: bool)
    ensures
        res == (a@ == b@),
{
    if a.len() != b.len() {
        return false;
    }
    let n: usize = a.len();
    let mut i: usize = 0;
    while i < n
        invariant
            i <= n,
            n == a@.len(),
            n == b@.len(),
            forall|j: int| 0 <= j < i ==> a@[j] == b@[j],
        decreases n - i,
    {
        if a[i] != b[i] {
            return false;
        }
        i += 1;
    }
    assert(a@ =~= b@);
    true
}

/// Whether two strings are the same.
pub fn same_text(a: &str, b: &str) -> (res: bool)
    ensures
        res == (a@ == b@),
{
    let x = to_chars(a);
    let y = to_chars(b);
    same(x.as_slice(), y.as_slice())
}

/// A copy of a string.
pub fn copy_text(s: &str) -> (res: String)
    ensures
        res@ == s@,
{
    s.to_owned()
}

/// Two strings, one behind the other.
pub fn join(a: &str, b: &str) -> (res: String)
    ensures
        res@ == a@ + b@,
{
    a.to_owned().concat(b)
}

/// The UTF-8 bytes of a string.
pub fn to_bytes(s: &str) -> (res: Vec<u8>)
    ensures
        res@ == encode_utf8(s@),
{
    vstd::slice::slice_to_vec(s.as_bytes())
}

// ---------------------------------------------------------------------------------------------
// White space
// ---------------------------------------------------------------------------------------------

/// The characters with Unicode's `White_Space` property.
pub open spec fn is_white(c: char) -> bool {
    let u = c as u32;
    ||| 0x09 <= u <= 0x0d
    ||| u == 0x20
    ||| u == 0x85
    ||| u == 0xa0
    ||| u == 0x1680
    ||| 0x2000 <= u <= 0x200a
    ||| u == 0x2028
    ||| u == 0x2029
    ||| u == 0x202f
    ||| u == 0x205f
    ||| u == 0x3000
}

/// Whether a character is white space.
pub fn is_whitespace(c: char) -> (res: bool)
    ensures
        res == is_white(c),
{
    let u: u32 = c as u32;
    (0x09 <= u && u <= 0x0d) || u == 0x20 || u == 0x85 || u == 0xa0 || u == 0x1680 || (0x2000 <= u
        && u <= 0x200a) || u == 0x2028 || u == 0x2029 || u == 0x202f || u == 0x205f || u == 0x3000
}

/// `s` without its leading white space.
pub open spec fn trimmed_start(s: Seq<char>) -> Seq<char>
    decreases s.len(),
{
    if s.len() > 0 && is_white(s[0]) {
        trimmed_start(s.skip(1))
    } else {
        s
    }
}

/// `s` without its trailing white space.
pub open spec fn trimmed_end(s: Seq<char>) -> Seq<char>
    decreases s.len(),
{
    if s.len() > 0 && is_white(s.last()) {
        trimmed_end(s.drop_last())
    } else {
        s
    }
}

/// `s` without the white space around it.
pub open spec fn trimmed(s: Seq<char>) -> Seq<char> {
    trimmed_end(trimmed_start(s))
}

proof fn lemma_trimmed_start(s: Seq<char>, k: int)
    requires
        0 <= k <= s.len(),
        forall|j: int| 0 <= j < k ==> is_white(#[trigger] s[j]),
        k < s.len() ==> !is_white(s[k]),
    ensures
        trimmed_start(s) == s.skip(k),
    decreases k,
{
    if k > 0 {
        assert(is_white(s[0]));
        let t = s.skip(1);
        assert forall|j: int| 0 <= j < k - 1 implies is_white(#[trigger] t[j]) by {
            assert(t[j] == s[j + 1]);
        }
        lemma_trimmed_start(t, k - 1);
        assert(t.skip(k - 1) =~= s.skip(k));
    } else {
        assert(s.skip(0) =~= s);
    }
}

proof fn lemma_trimmed_end(s: Seq<char>, k: int)
    requires
        0 <= k <= s.len(),
        forall|j: int| k <= j < s.len() ==> is_white(#[trigger] s[j]),
        k > 0 ==> !is_white(s[k - 1]),
    ensures
        trimmed_end(s) == s.take(k),
    decreases s.len(),
{
    if k < s.len() {
        assert(is_white(s[s.len() - 1]));
        let t = s.drop_last();
        assert forall|j: int| k <= j < t.len() implies is_white(#[trigger] t[j]) by {
            assert(t[j] == s[j]);
        }
        lemma_trimmed_end(t, k);
        assert(t.take(k) =~= s.take(k));
    } else {
        assert(s.take(k) =~= s);
    }
}

/// The part of `s` without the white space around it.
pub fn trim<'a>(s: &'a [char]) -> (res: &'a [char])
    ensures
        res@ == trimmed(s@),
{
    let n: usize = s.len();
    let mut start: usize = 0;
    while start < n && is_whitespace(s[start])
        invariant
            start <= n,
            n == s@.len(),
            forall|j: int| 0 <= j < start ==> is_white(#[trigger] s@[j]),
        decreases n - start,
    {
        start += 1;
    }
    let mut end: usize = n;
    while end > start && is_whitespace(s[end - 1])
        invariant
            start <= end <= n,
            n == s@.len(),
            forall|j: int| end <= j < n ==> is_white(#[trigger] s@[j]),
        decreases end,
    {
        end -= 1;
    }
    proof {
        lemma_trimmed_start(s@, start as int);
        let t = s@.skip(start as int);
        assert forall|j: int| end - start <= j < t.len() implies is_white(#[trigger] t[j]) by {
            assert(t[j] == s@[j + start]);
        }
        if end > start {
            assert(t[end - start - 1] == s@[end - 1]);
        }
        lemma_trimmed_end(t, end - start);
        assert(t.take(end - start) =~= s@.subrange(start as int, end as int));
    }
    slice_subrange(s, start, end)
}

// ---------------------------------------------------------------------------------------------
// Searching and splitting
// ---------------------------------------------------------------------------------------------

/// The first index at which `c` stands in `s`; the length of `s` where it does not occur.
pub open spec fn position(s: Seq<char>, c: char) -> int
    decreases s.len(),
{
    if s.len() == 0 || s[0] == c {
        0
    } else {
        1 + position(s.skip(1), c)
    }
}

/// The last index at which `c` stands in `s`; -1 where it does not occur.
pub open spec fn last_position(s: Seq<char>, c: char) -> int
    decreases s.len(),
{
    if s.len() == 0 || s.last() == c {
        s.len() - 1
    } else {
        last_position(s.drop_last(), c)
    }
}

/// A first position is where `c` stands and nowhere before.
pub proof fn lemma_position_bounds(s: Seq<char>, c: char)
    ensures
        0 <= position(s, c) <= s.len(),
        position(s, c) < s.len() ==> s[position(s, c)] == c,
        forall|j: int| 0 <= j < position(s, c) ==> s[j] != c,
        position(s, c) < s.len() <==> s.contains(c),
    decreases s.len(),
{
    if s.len() > 0 && s[0] != c {
        let t = s.skip(1);
        lemma_position_bounds(t, c);
        assert forall|j: int| 0 <= j < position(s, c) implies s[j] != c by {
            if j > 0 {
                assert(t[j - 1] == s[j]);
            }
        }
        if s.contains(c) {
            let k = choose|k: int| 0 <= k < s.len() && s[k] == c;
            assert(t[k - 1] == c);
            assert(t.contains(c));
        }
    }
}

/// An index where `c` stands and before which it does not is the first position.
pub proof fn lemma_position(s: Seq<char>, c: char, k: int)
    requires
        0 <= k <= s.len(),
        forall|j: int| 0 <= j < k ==> s[j] != c,
        k < s.len() ==> s[k] == c,
    ensures
        position(s, c) == k,
{
    lemma_position_bounds(s, c);
}

/// A last position is where `c` stands and nowhere behind.
pub proof fn lemma_last_position_bounds(s: Seq<char>, c: char)
    ensures
        -1 <= last_position(s, c) < s.len(),
        last_position(s, c) >= 0 ==> s[last_position(s, c)] == c,
        forall|j: int| last_position(s, c) < j < s.len() ==> s[j] != c,
    decreases s.len(),
{
    if s.len() > 0 && s.last() != c {
        let t = s.drop_last();
        lemma_last_position_bounds(t, c);
        assert forall|j: int| last_position(s, c) < j < s.len() implies s[j] != c by {
            if j < t.len() {
                assert(t[j] == s[j]);
            }
        }
    }
}

/// The first index at which `c` stands in `s`, or the length of `s`.
pub fn find(s: &[char], c: char) -> (res: usize)
    ensures
        res == position(s@, c),
        res <= s@.len(),
        res < s@.len() ==> s@[res as int] == c,
{
    let n: usize = s.len();
    let mut i: usize = 0;
    while i < n && s[i] != c
        invariant
            i <= n,
            n == s@.len(),
            forall|j: int| 0 <= j < i ==> s@[j] != c,
        decreases n - i,
    {
        i += 1;
    }
    proof {
        lemma_position(s@, c, i as int);
    }
    i
}

/// The last index at which `c` stands in `s`.
pub fn rfind(s: &[char], c: char) -> (res: Option<usize>)
    ensures
        last_position(s@, c) < 0 <==> res is None,
        res matches Some(i) ==> i == last_position(s@, c) && i < s@.len(),
{
    let mut i: usize = s.len();
    while i > 0
        invariant
            i <= s@.len(),
            forall|j: int| i <= j < s@.len() ==> s@[j] != c,
        decreases i,
    {
        i -= 1;
        if s[i] == c {
            proof {
                lemma_last_position_bounds(s@, c);
            }
            return Some(i);
        }
    }
    proof {
        lemma_last_position_bounds(s@, c);
    }
    None
}

/// Whether `c` stands in `s`.
pub fn has_char(s: &[char], c: char) -> (res: bool)
    ensures
        res == s@.contains(c),
{
    proof {
        lemma_position_bounds(s@, c);
    }
    find(s, c) < s.len()
}

/// What stands before and behind the first `c` of `s`.
pub open spec fn cut(s: Seq<char>, c: char) -> Option<(Seq<char>, Seq<char>)> {
    let p = position(s, c);
    if p < s.len() {
        Some((s.take(p), s.skip(p + 1)))
    } else {
        None
    }
}

/// What stands before and behind the first `c` of `s`.
pub fn split_once<'a>(s: &'a [char], c: char) -> (res: Option<(&'a [char], &'a [char])>)
    ensures
        match res {
            Some((before, behind)) => cut(s@, c) == Some((before@, behind@)),
            None => cut(s@, c) is None,
        },
{
    let p: usize = find(s, c);
    if p < s.len() {
        Some((slice_subrange(s, 0, p), slice_subrange(s, p + 1, s.len())))
    } else {
        None
    }
}

/// The parts of `s` between the separators `c`.
pub open spec fn pieces(s: Seq<char>, c: char) -> Seq<Seq<char>>
    decreases s.len(),
    via pieces_decreases
{
    let p = position(s, c);
    if p < s.len() {
        seq![s.take(p)] + pieces(s.skip(p + 1), c)
    } else {
        seq![s]
    }
}

#[via_fn]
proof fn pieces_decreases(s: Seq<char>, c: char) {
    lemma_position_bounds(s, c);
}

/// The contents of a list of slices.
pub open spec fn contents(parts: Seq<&[char]>) -> Seq<Seq<char>> {
    parts.map_values(|part: &[char]| part@)
}

/// The parts of `s` between the separators `c`.
pub fn split<'a>(s: &'a [char], c: char) -> (res: Vec<&'a [char]>)
    ensures
        contents(res@) == pieces(s@, c),
        res@.len() >= 1,
{
    let mut res: Vec<&'a [char]> = Vec::new();
    let n: usize = s.len();
    let mut start: usize = 0;
    proof {
        assert(s@.skip(0) =~= s@);
        assert(contents(res@) + pieces(s@, c) =~= pieces(s@, c));
    }
    loop
        invariant
            start <= n,
            n == s@.len(),
            contents(res@) + pieces(s@.skip(start as int), c) == pieces(s@, c),
        decreases n - start,
    {
        let rest = slice_subrange(s, start, n);
        assert(rest@ =~= s@.skip(start as int));
        let p: usize = find(rest, c);
        let ghost before = res@;
        if p < rest.len() {
            let part = slice_subrange(s, start, start + p);
            res.push(part);
            proof {
                assert(part@ =~= rest@.take(p as int));
                assert(rest@.skip(p + 1) =~= s@.skip(start + p + 1));
                assert(contents(res@) =~= contents(before) + seq![part@]);
                assert(contents(res@) + pieces(s@.skip(start + p + 1), c) =~= contents(before) + (
                seq![part@] + pieces(s@.skip(start + p + 1), c)));
            }
            start = start + p + 1;
        } else {
            res.push(rest);
            proof {
                assert(contents(res@) =~= contents(before) + seq![rest@]);
            }
            return res;
        }
    }
}

/// `line` without one carriage return at its end.
pub open spec fn without_cr(line: Seq<char>) -> Seq<char> {
    if line.len() > 0 && line.last() == '\r' {
        line.drop_last()
    } else {
        line
    }
}

/// The lines of `s`: each ends at a line feed, or at a carriage return and a line feed; text
/// behind the last line feed is a line of its own.
pub open spec fn text_lines(s: Seq<char>) -> Seq<Seq<char>>
    decreases s.len(),
    via text_lines_decreases
{
    let p = position(s, '\n');
    if s.len() == 0 {
        seq![]
    } else if p < s.len() {
        seq![without_cr(s.take(p))] + text_lines(s.skip(p + 1))
    } else {
        seq![s]
    }
}

#[via_fn]
proof fn text_lines_decreases(s: Seq<char>) {
    lemma_position_bounds(s, '\n');
}

/// The lines of `s`.
pub fn lines<'a>(s: &'a [char]) -> (res: Vec<&'a [char]>)
    ensures
        contents(res@) == text_lines(s@),
{
    let mut res: Vec<&'a [char]> = Vec::new();
    let n: usize = s.len();
    let mut start: usize = 0;
    proof {
        assert(s@.skip(0) =~= s@);
        assert(contents(res@) + text_lines(s@) =~= text_lines(s@));
    }
    while start < n
        invariant
            start <= n,
            n == s@.len(),
            contents(res@) + text_lines(s@.skip(start as int)) == text_lines(s@),
        decreases n - start,
    {
        let rest = slice_subrange(s, start, n);
        assert(rest@ =~= s@.skip(start as int));
        let p: usize = find(rest, '\n');
        let ghost before = res@;
        if p < rest.len() {
            let mut end: usize = p;
            if p > 0 && rest[p - 1] == '\r' {
                end = p - 1;
            }
            let part = slice_subrange(rest, 0, end);
            res.push(part);
            proof {
                assert(part@ =~= without_cr(rest@.take(p as int)));
                assert(rest@.skip(p + 1) =~= s@.skip(start + p + 1));
                assert(contents(res@) =~= contents(before) + seq![part@]);
                assert(contents(res@) + text_lines(s@.skip(start + p + 1)) =~= contents(before) + (
                seq![part@] + text_lines(s@.skip(start + p + 1))));
            }
            start = start + p + 1;
        } else {
            res.push(rest);
            proof {
                assert(contents(res@) =~= contents(before) + seq![rest@]);
                assert(s@.skip(n as int).len() == 0);
                assert(contents(res@) + text_lines(s@.skip(n as int)) =~= contents(res@));
            }
            start = n;
        }
    }
    proof {
        assert(s@.skip(n as int).len() == 0);
        assert(contents(res@) + text_lines(s@.skip(n as int)) =~= contents(res@));
    }
    res
}

/// The first index of `s` with white space, or the length of `s`.
pub open spec fn word_end(s: Seq<char>) -> int
    decreases s.len(),
{
    if s.len() == 0 || is_white(s[0]) {
        0
    } else {
        1 + word_end(s.skip(1))
    }
}

proof fn lemma_word_end(s: Seq<char>)
    ensures
        0 <= word_end(s) <= s.len(),
        word_end(s) < s.len() ==> is_white(s[word_end(s)]),
        forall|j: int| 0 <= j < word_end(s) ==> !is_white(#[trigger] s[j]),
    decreases s.len(),
{
    if s.len() > 0 && !is_white(s[0]) {
        let t = s.skip(1);
        lemma_word_end(t);
        assert forall|j: int| 0 <= j < word_end(s) implies !is_white(#[trigger] s[j]) by {
            if j > 0 {
                assert(t[j - 1] == s[j]);
            }
        }
    }
}

proof fn lemma_trimmed_start_len(s: Seq<char>)
    ensures
        trimmed_start(s).len() <= s.len(),
        trimmed_start(s).len() > 0 ==> !is_white(trimmed_start(s)[0]),
    decreases s.len(),
{
    if s.len() > 0 && is_white(s[0]) {
        lemma_trimmed_start_len(s.skip(1));
    }
}

/// The words of `s`: the longest parts without white space.
pub open spec fn words(s: Seq<char>) -> Seq<Seq<char>>
    decreases s.len(),
    via words_decreases
{
    let t = trimmed_start(s);
    if t.len() == 0 {
        seq![]
    } else {
        let k = word_end(t);
        seq![t.take(k)] + words(t.skip(k))
    }
}

#[via_fn]
proof fn words_decreases(s: Seq<char>) {
    lemma_trimmed_start_len(s);
    lemma_word_end(trimmed_start(s));
}

/// The words of `s`.
pub fn split_whitespace<'a>(s: &'a [char]) -> (res: Vec<&'a [char]>)
    ensures
        contents(res@) == words(s@),
{
    let mut res: Vec<&'a [char]> = Vec::new();
    let n: usize = s.len();
    let mut start: usize = 0;
    proof {
        assert(s@.skip(0) =~= s@);
        assert(contents(res@) + words(s@) =~= words(s@));
    }
    loop
        invariant
            start <= n,
            n == s@.len(),
            contents(res@) + words(s@.skip(start as int)) == words(s@),
        decreases n - start,
    {
        let mut first: usize = start;
        while first < n && is_whitespace(s[first])
            invariant
                start <= first <= n,
                n == s@.len(),
                forall|j: int| start <= j < first ==> is_white(#[trigger] s@[j]),
            decreases n - first,
        {
            first += 1;
        }
        let ghost rest = s@.skip(start as int);
        proof {
            assert forall|j: int| 0 <= j < first - start implies is_white(#[trigger] rest[j]) by {
                assert(rest[j] == s@[j + start]);
            }
            lemma_trimmed_start(rest, first - start);
            assert(rest.skip(first - start) =~= s@.skip(first as int));
        }
        if first == n {
            assert(contents(res@) + words(rest) =~= contents(res@));
            return res;
        }
        let mut end: usize = first;
        while end < n && !is_whitespace(s[end])
            invariant
                first <= end <= n,
                n == s@.len(),
                forall|j: int| first <= j < end ==> !is_white(#[trigger] s@[j]),
            decreases n - end,
        {
            end += 1;
        }
        let ghost before = res@;
        let part = slice_subrange(s, first, end);
        res.push(part);
        proof {
            let t = s@.skip(first as int);
            lemma_word_end(t);
            let k = word_end(t);
            if k < end - first {
                assert(t[k] == s@[first + k]);
            }
            if k > end - first {
                assert(t[end - first] == s@[end as int]);
            }
            assert(k == end - first);
            assert(part@ =~= t.take(k));
            assert(t.skip(k) =~= s@.skip(end as int));
            assert(contents(res@) =~= contents(before) + seq![part@]);
            assert(contents(res@) + words(s@.skip(end as int)) =~= contents(before) + (seq![part@]
                + words(s@.skip(end as int))));
        }
        start = end;
    }
}

/// A text without white space is one word.
proof fn lemma_one_word(s: Seq<char>)
    requires
        s.len() > 0,
        forall|i: int| 0 <= i < s.len() ==> !is_white(#[trigger] s[i]),
    ensures
        words(s) == seq![s],
{
    assert(!is_white(s[0]));
    lemma_word_end(s);
    let k = word_end(s);
    if k < s.len() {
        assert(is_white(s[k]));
    }
    assert(s.take(k) =~= s);
    assert(s.skip(k).len() == 0);
    assert(words(s.skip(k)) =~= seq![]);
    assert(words(s) =~= seq![s]);
}

/// Two texts without white space and a space between them are two words.
pub proof fn lemma_two_words(a: Seq<char>, b: Seq<char>)
    requires
        a.len() > 0,
        b.len() > 0,
        forall|i: int| 0 <= i < a.len() ==> !is_white(#[trigger] a[i]),
        forall|i: int| 0 <= i < b.len() ==> !is_white(#[trigger] b[i]),
    ensures
        words(a + seq![' '] + b) == seq![a, b],
{
    let s = a + seq![' '] + b;
    assert(s[0] == a[0]);
    assert(trimmed_start(s) == s);
    lemma_word_end(s);
    let k = word_end(s);
    let n = a.len() as int;
    if k < n {
        assert(s[k] == a[k]);
    }
    if k > n {
        assert(s[n] == ' ');
    }
    assert(s.take(k) =~= a);
    let t = s.skip(k);
    assert(t =~= seq![' '] + b);
    assert(is_white(t[0]));
    assert(t.skip(1) =~= b);
    assert(!is_white(b[0]));
    lemma_trimmed_start(t, 1);
    lemma_one_word(b);
    lemma_word_end(b);
    assert(words(t) == words(b)) by {
        assert(trimmed_start(b) == b);
    }
    assert(words(s) =~= seq![a, b]);
}

/// Whether `s` starts with `prefix`.
pub fn starts_with(s: &[char], prefix: &[char]) -> (res: bool)
    ensures
        res == prefix@.is_prefix_of(s@),
{
    if s.len() < prefix.len() {
        return false;
    }
    same(slice_subrange(s, 0, prefix.len()), prefix)
}

/// The first index at which `pattern` stands in `s`.
pub open spec fn seek<A>(s: Seq<A>, pattern: Seq<A>) -> Option<int>
    decreases s.len(),
{
    if pattern.is_prefix_of(s) {
        Some(0int)
    } else if s.len() == 0 {
        None
    } else {
        match seek(s.skip(1), pattern) {
            Some(i) => Some(i + 1),
            None => None,
        }
    }
}

/// Whether `pattern` stands in `s` at index `i`.
pub open spec fn stands_at<A>(s: Seq<A>, pattern: Seq<A>, i: int) -> bool {
    0 <= i && i + pattern.len() <= s.len() && s.subrange(i, i + pattern.len()) == pattern
}

/// What `seek` finds: the least index at which the pattern stands, if there is one.
pub proof fn lemma_seek<A>(s: Seq<A>, pattern: Seq<A>)
    ensures
        match seek(s, pattern) {
            Some(i) => stands_at(s, pattern, i) && forall|j: int| 0 <= j < i ==> !stands_at(
                s,
                pattern,
                j,
            ),
            None => forall|j: int| !stands_at(s, pattern, j),
        },
    decreases s.len(),
{
    if pattern.is_prefix_of(s) {
        assert(s.subrange(0, pattern.len() as int) =~= pattern);
    } else {
        assert(!stands_at(s, pattern, 0)) by {
            if stands_at(s, pattern, 0) {
                assert(s.subrange(0, pattern.len() as int) =~= pattern);
            }
        }
        if s.len() > 0 {
            let t = s.skip(1);
            lemma_seek(t, pattern);
            assert forall|j: int| j > 0 implies stands_at(s, pattern, j) == stands_at(
                t,
                pattern,
                j - 1,
            ) by {
                if j + pattern.len() <= s.len() {
                    assert(s.subrange(j, j + pattern.len()) =~= t.subrange(
                        j - 1,
                        j - 1 + pattern.len(),
                    ));
                }
            }
            match seek(t, pattern) {
                Some(i) => {
                    assert forall|j: int| 0 <= j < i + 1 implies !stands_at(s, pattern, j) by {
                        if j > 0 {
                            assert(!stands_at(t, pattern, j - 1));
                        }
                    }
                },
                None => {
                    assert forall|j: int| !stands_at(s, pattern, j) by {
                        if j > 0 {
                            assert(!stands_at(t, pattern, j - 1));
                        }
                    }
                },
            }
        } else {
            assert forall|j: int| !stands_at(s, pattern, j) by {
                if stands_at(s, pattern, j) {
                    assert(j == 0);
                }
            }
        }
    }
}

/// An index at which the pattern stands, and before which it does not, is what `seek` finds.
pub proof fn lemma_seek_is<A>(s: Seq<A>, pattern: Seq<A>, k: int)
    requires
        stands_at(s, pattern, k),
        forall|j: int| 0 <= j < k ==> !stands_at(s, pattern, j),
    ensures
        seek(s, pattern) == Some(k),
{
    lemma_seek(s, pattern);
}

/// The first index at which `pattern` stands in `s`.
pub fn find_chars(s: &[char], pattern: &[char]) -> (res: Option<usize>)
    ensures
        res is Some <==> seek(s@, pattern@) is Some,
        res matches Some(i) ==> i == seek(s@, pattern@)->0 && i + pattern@.len() <= s@.len(),
{
    proof {
        lemma_seek(s@, pattern@);
    }
    let n: usize = s.len();
    let m: usize = pattern.len();
    if n < m {
        return None;
    }
    let mut i: usize = 0;
    while i <= n - m
        invariant
            m <= n,
            i <= n - m + 1,
            n == s@.len(),
            m == pattern@.len(),
            forall|j: int| 0 <= j < i ==> !stands_at(s@, pattern@, j),
            match seek(s@, pattern@) {
                Some(k) => stands_at(s@, pattern@, k) && forall|j: int|
                    0 <= j < k ==> !stands_at(s@, pattern@, j),
                None => forall|j: int| !stands_at(s@, pattern@, j),
            },
        decreases n - i,
    {
        if same(slice_subrange(s, i, i + m), pattern) {
            assert(stands_at(s@, pattern@, i as int));
            return Some(i);
        }
        if i == n - m {
            return None;
        }
        i += 1;
    }
    None
}

/// The first index at which `pattern` stands in `s`.
pub fn find_bytes(s: &[u8], pattern: &[u8]) -> (res: Option<usize>)
    ensures
        res is Some <==> seek(s@, pattern@) is Some,
        res matches Some(i) ==> i == seek(s@, pattern@)->0 && i + pattern@.len() <= s@.len(),
{
    proof {
        lemma_seek(s@, pattern@);
    }
    let n: usize = s.len();
    let m: usize = pattern.len();
    if n < m {
        return None;
    }
    let mut i: usize = 0;
    while i <= n - m
        invariant
            m <= n,
            i <= n - m + 1,
            n == s@.len(),
            m == pattern@.len(),
            forall|j: int| 0 <= j < i ==> !stands_at(s@, pattern@, j),
            match seek(s@, pattern@) {
                Some(k) => stands_at(s@, pattern@, k) && forall|j: int|
                    0 <= j < k ==> !stands_at(s@, pattern@, j),
                None => forall|j: int| !stands_at(s@, pattern@, j),
            },
        decreases n - i,
    {
        if same_bytes(slice_subrange(s, i, i + m), pattern) {
            assert(stands_at(s@, pattern@, i as int));
            return Some(i);
        }
        if i == n - m {
            return None;
        }
        i += 1;
    }
    None
}

/// Whether two byte sequences are the same.
pub fn same_bytes(a: &[u8], b: &[u8]) -> (res: bool)
    ensures
        res == (a@ == b@),
{
    if a.len() != b.len() {
        return false;
    }
    let n: usize = a.len();
    let mut i: usize = 0;
    while i < n
        invariant
            i <= n,
            n == a@.len(),
            n == b@.len(),
            forall|j: int| 0 <= j < i ==> a@[j] == b@[j],
        decreases n - i,
    {
        if a[i] != b[i] {
            return false;
        }
        i += 1;
    }
    assert(a@ =~= b@);
    true
}

/// The parts of `s` between the separators `pattern`.
pub open spec fn pieces_by(s: Seq<char>, pattern: Seq<char>) -> Seq<Seq<char>>
    decreases s.len(),
    via pieces_by_decreases
{
    if pattern.len() == 0 {
        seq![s]
    } else {
        match seek(s, pattern) {
            Some(i) => seq![s.take(i)] + pieces_by(s.skip(i + pattern.len()), pattern),
            None => seq![s],
        }
    }
}

#[via_fn]
proof fn pieces_by_decreases(s: Seq<char>, pattern: Seq<char>) {
    lemma_seek(s, pattern);
}

/// The parts of `s` between the separators `pattern`.
pub fn split_by<'a>(s: &'a [char], pattern: &[char]) -> (res: Vec<&'a [char]>)
    requires
        pattern@.len() > 0,
    ensures
        contents(res@) == pieces_by(s@, pattern@),
        res@.len() >= 1,
{
    let mut res: Vec<&'a [char]> = Vec::new();
    let n: usize = s.len();
    let mut start: usize = 0;
    proof {
        assert(s@.skip(0) =~= s@);
        assert(contents(res@) + pieces_by(s@, pattern@) =~= pieces_by(s@, pattern@));
    }
    loop
        invariant
            start <= n,
            n == s@.len(),
            pattern@.len() > 0,
            contents(res@) + pieces_by(s@.skip(start as int), pattern@) == pieces_by(
                s@,
                pattern@,
            ),
        decreases n - start,
    {
        let rest = slice_subrange(s, start, n);
        assert(rest@ =~= s@.skip(start as int));
        let ghost before = res@;
        match find_chars(rest, pattern) {
            Some(p) => {
                let part = slice_subrange(s, start, start + p);
                res.push(part);
                proof {
                    let next = start + p + pattern@.len();
                    assert(part@ =~= rest@.take(p as int));
                    assert(rest@.skip(p + pattern@.len()) =~= s@.skip(next));
                    assert(contents(res@) =~= contents(before) + seq![part@]);
                    assert(contents(res@) + pieces_by(s@.skip(next), pattern@) =~= contents(before)
                        + (seq![part@] + pieces_by(s@.skip(next), pattern@)));
                }
                start = start + p + pattern.len();
            },
            None => {
                res.push(rest);
                proof {
                    assert(contents(res@) =~= contents(before) + seq![rest@]);
                }
                return res;
            },
        }
    }
}

/// `s` without the parts that are `pattern`, taken from the left.
pub open spec fn without(s: Seq<char>, pattern: Seq<char>) -> Seq<char>
    decreases s.len(),
{
    if pattern.len() == 0 || s.len() < pattern.len() {
        s
    } else if s.take(pattern.len() as int) == pattern {
        without(s.skip(pattern.len() as int), pattern)
    } else {
        seq![s[0]] + without(s.skip(1), pattern)
    }
}

/// `s` without the parts that are `pattern`.
pub fn remove_all(s: &[char], pattern: &[char]) -> (res: Vec<char>)
    requires
        pattern@.len() > 0,
    ensures
        res@ == without(s@, pattern@),
{
    let mut res: Vec<char> = Vec::new();
    let n: usize = s.len();
    let m: usize = pattern.len();
    let mut i: usize = 0;
    proof {
        assert(s@.skip(0) =~= s@);
        assert(res@ + without(s@, pattern@) =~= without(s@, pattern@));
    }
    while n - i >= m
        invariant
            i <= n,
            n == s@.len(),
            m == pattern@.len(),
            m > 0,
            res@ + without(s@.skip(i as int), pattern@) == without(s@, pattern@),
        decreases n - i,
    {
        let ghost rest = s@.skip(i as int);
        let window = slice_subrange(s, i, i + m);
        assert(window@ =~= rest.take(m as int));
        if same(window, pattern) {
            assert(rest.skip(m as int) =~= s@.skip(i + m));
            i += m;
        } else {
            let ghost before = res@;
            res.push(s[i]);
            proof {
                assert(rest.skip(1) =~= s@.skip(i + 1));
                assert(res@ + without(s@.skip(i + 1), pattern@) =~= before + (seq![rest[0]]
                    + without(s@.skip(i + 1), pattern@)));
            }
            i += 1;
        }
    }
    let tail = slice_subrange(s, i, n);
    assert(tail@ =~= s@.skip(i as int));
    res.extend_from_slice(tail);
    res
}

// ---------------------------------------------------------------------------------------------
// Letter case
// ---------------------------------------------------------------------------------------------

/// A character with an ASCII capital made small.
pub open spec fn small(c: char) -> char {
    if 'A' <= c <= 'Z' {
        (c as u32 + 32) as char
    } else {
        c
    }
}

/// Whether two texts are the same but for the case of ASCII letters.
pub open spec fn same_but_case(a: Seq<char>, b: Seq<char>) -> bool {
    a.len() == b.len() && forall|i: int| 0 <= i < a.len() ==> small(#[trigger] a[i]) == small(b[i])
}

/// A character with an ASCII capital made small.
pub fn to_small(c: char) -> (res: char)
    ensures
        res == small(c),
{
    if 'A' <= c && c <= 'Z' {
        ((c as u8) + 32) as char
    } else {
        c
    }
}

/// Whether two texts are the same but for the case of ASCII letters.
pub fn eq_ignore_ascii_case(a: &[char], b: &[char]) -> (res: bool)
    ensures
        res == same_but_case(a@, b@),
{
    if a.len() != b.len() {
        return false;
    }
    let n: usize = a.len();
    let mut i: usize = 0;
    while i < n
        invariant
            i <= n,
            n == a@.len(),
            n == b@.len(),
            forall|j: int| 0 <= j < i ==> small(#[trigger] a@[j]) == small(b@[j]),
        decreases n - i,
    {
        if to_small(a[i]) != to_small(b[i]) {
            return false;
        }
        i += 1;
    }
    true
}

// ---------------------------------------------------------------------------------------------
// Numbers
// ---------------------------------------------------------------------------------------------

/// Whether `c` is an ASCII digit.
pub open spec fn is_digit(c: char) -> bool {
    '0' <= c <= '9'
}

/// Whether `s` is made of ASCII digits alone.
pub open spec fn all_digits(s: Seq<char>) -> bool {
    forall|i: int| 0 <= i < s.len() ==> is_digit(#[trigger] s[i])
}

/// The number that digits write in base ten.
pub open spec fn digits_value(s: Seq<char>) -> nat
    decreases s.len(),
{
    if s.len() == 0 {
        0
    } else {
        digits_value(s.drop_last()) * 10 + (s.last() as u32 - '0' as u32) as nat
    }
}

/// The number that a text is: at least one digit, with at most one plus sign before.
pub open spec fn number(s: Seq<char>) -> Option<nat> {
    let digits = if s.len() > 0 && s[0] == '+' {
        s.skip(1)
    } else {
        s
    };
    if digits.len() > 0 && all_digits(digits) {
        Some(digits_value(digits))
    } else {
        None
    }
}

/// The number that a text is, where it is at most `max`.
pub open spec fn number_up_to(s: Seq<char>, max: nat) -> Option<nat> {
    match number(s) {
        Some(n) => if n <= max {
            Some(n)
        } else {
            None
        },
        None => None,
    }
}

/// What the error of `str::parse::<u16>` says of a text that is no port number.
pub uninterp spec fn port_fault(text: Seq<char>) -> Seq<char>;

/// `str::parse::<u16>` reads an optional plus sign and digits, as a number of at most 65535.
/// Elsewhere its error says, in words that depend on the text alone, what is wrong.
#[verifier::external_body]
pub(crate) fn parse_port(text: &str) -> (res: Result<u16, String>)
    ensures
        match res {
            Ok(port) => number_up_to(text@, 65535) == Some(port as nat),
            Err(words) => number_up_to(text@, 65535) is None && words@ == port_fault(text@),
        },
{
    match text.parse::<u16>() {
        Ok(port) => Ok(port),
        Err(error) => Err(error.to_string()),
    }
}

proof fn lemma_digits_value_grows(s: Seq<char>, k: int)
    requires
        all_digits(s),
        0 <= k <= s.len(),
    ensures
        digits_value(s.take(k)) <= digits_value(s),
    decreases s.len(),
{
    if k == s.len() {
        assert(s.take(k) =~= s);
    } else {
        let t = s.drop_last();
        assert(all_digits(t)) by {
            assert forall|i: int| 0 <= i < t.len() implies is_digit(#[trigger] t[i]) by {
                assert(t[i] == s[i]);
            }
        }
        lemma_digits_value_grows(t, k);
        assert(t.take(k) =~= s.take(k));
        assert(is_digit(s[s.len() - 1]));
    }
}

/// The number that a text is, where it is at most `max`.
pub fn parse_number(s: &[char], max: u64) -> (res: Option<u64>)
    ensures
        match res {
            Some(n) => number_up_to(s@, max as nat) == Some(n as nat),
            None => number_up_to(s@, max as nat) is None,
        },
{
    let n: usize = s.len();
    let mut start: usize = 0;
    if n > 0 && s[0] == '+' {
        start = 1;
    }
    let digits = slice_subrange(s, start, n);
    proof {
        if start == 0 {
            assert(digits@ =~= s@);
        } else {
            assert(digits@ =~= s@.skip(1));
        }
    }
    let m: usize = digits.len();
    if m == 0 {
        return None;
    }
    let mut value: u64 = 0;
    let mut i: usize = 0;
    while i < m
        invariant
            i <= m,
            m == digits@.len(),
            m > 0,
            digits@ == (if s@.len() > 0 && s@[0] == '+' {
                s@.skip(1)
            } else {
                s@
            }),
            forall|j: int| 0 <= j < i ==> is_digit(#[trigger] digits@[j]),
            value <= max,
            value == digits_value(digits@.take(i as int)),
        decreases m - i,
    {
        let c: char = digits[i];
        if !('0' <= c && c <= '9') {
            assert(!is_digit(digits@[i as int]));
            return None;
        }
        let wide: u128 = (value as u128) * 10 + ((c as u32) - ('0' as u32)) as u128;
        proof {
            let longer = digits@.take(i + 1);
            assert(longer.drop_last() =~= digits@.take(i as int));
            assert(longer.last() == c);
            assert(digits_value(longer) == wide);
        }
        if wide > max as u128 {
            proof {
                if all_digits(digits@) {
                    lemma_digits_value_grows(digits@, i + 1);
                }
            }
            return None;
        }
        value = wide as u64;
        i += 1;
    }
    assert(digits@.take(m as int) =~= digits@);
    Some(value)
}

/// The digit character of a number below ten.
pub open spec fn digit_char(d: nat) -> char {
    ('0' as u32 + d) as char
}

/// A number in base ten, without leading zeros.
pub open spec fn decimal(n: nat) -> Seq<char>
    decreases n,
{
    if n < 10 {
        seq![digit_char(n)]
    } else {
        decimal(n / 10).push(digit_char(n % 10))
    }
}

/// A number written in base ten is made of digits and reads as itself.
pub proof fn lemma_decimal(n: nat)
    ensures
        decimal(n).len() >= 1,
        all_digits(decimal(n)),
        digits_value(decimal(n)) == n,
    decreases n,
{
    if n < 10 {
        assert(decimal(n).drop_last() =~= Seq::<char>::empty());
        assert(digits_value(Seq::<char>::empty()) == 0);
    } else {
        lemma_decimal(n / 10);
        let s = decimal(n);
        assert(s.drop_last() =~= decimal(n / 10));
        assert forall|i: int| 0 <= i < s.len() implies is_digit(#[trigger] s[i]) by {
            if i < s.len() - 1 {
                assert(decimal(n / 10)[i] == s[i]);
            }
        }
    }
}

/// Digits that do not start with a zero, or are but one, are the number that they write in base
/// ten.
pub proof fn lemma_decimal_of_digits(s: Seq<char>)
    requires
        s.len() > 0,
        all_digits(s),
        s.len() == 1 || s[0] != '0',
    ensures
        decimal(digits_value(s)) == s,
        s.len() > 1 ==> digits_value(s) >= 10,
    decreases s.len(),
{
    let d = (s.last() as u32 - '0' as u32) as nat;
    assert(is_digit(s.last()));
    assert(digit_char(d) == s.last());
    if s.len() == 1 {
        assert(digits_value(s.drop_last()) == 0);
        assert(s =~= seq![s.last()]);
    } else {
        let t = s.drop_last();
        assert(all_digits(t)) by {
            assert forall|i: int| 0 <= i < t.len() implies is_digit(#[trigger] t[i]) by {
                assert(t[i] == s[i]);
            }
        }
        lemma_decimal_of_digits(t);
        if t.len() == 1 {
            assert(is_digit(s[0]));
            assert(digits_value(t.drop_last()) == 0);
        }
        assert(digits_value(s) / 10 == digits_value(t));
        assert(digits_value(s) % 10 == d);
        assert(s =~= t.push(s.last()));
    }
}

/// Reading a number from the text that writes it gives the number back.
pub proof fn law_number_of_decimal(n: nat, max: nat)
    requires
        n <= max,
    ensures
        number_up_to(decimal(n), max) == Some(n),
{
    lemma_decimal(n);
    assert(is_digit(decimal(n)[0]));
}

/// Appends a number in base ten.
pub fn push_decimal(out: &mut String, n: u128)
    ensures
        final(out)@ == old(out)@ + decimal(n as nat),
    decreases n,
{
    if n >= 10 {
        push_decimal(out, n / 10);
    }
    let ghost before = out@;
    let digit: u8 = (n % 10) as u8;
    out.push((48 + digit) as char);
    proof {
        if n >= 10 {
            assert(out@ =~= old(out)@ + decimal(n as nat));
        } else {
            assert(out@ =~= old(out)@ + decimal(n as nat));
        }
    }
}

/// The small hexadecimal digit of a number below sixteen.
pub open spec fn hex_digit(d: int) -> char {
    if d < 10 {
        ('0' as u32 + d) as char
    } else {
        ('a' as u32 + (d - 10)) as char
    }
}

/// The value of a hexadecimal digit of either case.
pub open spec fn hex_value(c: char) -> Option<int> {
    if '0' <= c <= '9' {
        Some(c as u32 - '0' as u32)
    } else if 'a' <= c <= 'f' {
        Some(c as u32 - 'a' as u32 + 10)
    } else if 'A' <= c <= 'F' {
        Some(c as u32 - 'A' as u32 + 10)
    } else {
        None
    }
}

/// The small hexadecimal digit of a number below sixteen.
pub fn hex_digit_char(d: u8) -> (res: char)
    requires
        d < 16,
    ensures
        res == hex_digit(d as int),
{
    if d < 10 {
        (48 + d) as char
    } else {
        (97 + (d - 10)) as char
    }
}

/// The value of a hexadecimal digit of either case.
pub fn hex_digit_value(c: char) -> (res: Option<u8>)
    ensures
        match res {
            Some(v) => hex_value(c) == Some(v as int) && v < 16,
            None => hex_value(c) is None,
        },
{
    if '0' <= c && c <= '9' {
        Some((c as u8) - 48)
    } else if 'a' <= c && c <= 'f' {
        Some((c as u8) - 97 + 10)
    } else if 'A' <= c && c <= 'F' {
        Some((c as u8) - 65 + 10)
    } else {
        None
    }
}

/// Bytes in hexadecimal, two digits each.
pub open spec fn hex_text(bytes: Seq<u8>) -> Seq<char>
    decreases bytes.len(),
{
    if bytes.len() == 0 {
        seq![]
    } else {
        hex_text(bytes.drop_last()) + seq![
            hex_digit(bytes.last() as int / 16),
            hex_digit(bytes.last() as int % 16),
        ]
    }
}

/// Bytes in hexadecimal, two digits each.
pub fn to_hex(bytes: &[u8]) -> (res: String)
    ensures
        res@ == hex_text(bytes@),
{
    let mut res: String = String::new();
    let n: usize = bytes.len();
    let mut i: usize = 0;
    while i < n
        invariant
            i <= n,
            n == bytes@.len(),
            res@ == hex_text(bytes@.take(i as int)),
        decreases n - i,
    {
        let b: u8 = bytes[i];
        res.push(hex_digit_char(b / 16));
        res.push(hex_digit_char(b % 16));
        proof {
            let longer = bytes@.take(i + 1);
            assert(longer.drop_last() =~= bytes@.take(i as int));
            assert(res@ =~= hex_text(longer));
        }
        i += 1;
    }
    assert(bytes@.take(n as int) =~= bytes@);
    res
}

/// Hexadecimal text has two characters for each byte, and they are the byte's digits.
pub proof fn lemma_hex_text(bytes: Seq<u8>)
    ensures
        hex_text(bytes).len() == 2 * bytes.len(),
        forall|i: int|
            0 <= i < bytes.len() ==> #[trigger] hex_text(bytes)[2 * i] == hex_digit(
                bytes[i] as int / 16,
            ) && hex_text(bytes)[2 * i + 1] == hex_digit(bytes[i] as int % 16),
    decreases bytes.len(),
{
    if bytes.len() > 0 {
        let t = bytes.drop_last();
        lemma_hex_text(t);
        assert forall|i: int| 0 <= i < bytes.len() implies #[trigger] hex_text(bytes)[2 * i]
            == hex_digit(bytes[i] as int / 16) && hex_text(bytes)[2 * i + 1] == hex_digit(
            bytes[i] as int % 16,
        ) by {
            if i < t.len() {
                assert(hex_text(t)[2 * i] == hex_digit(t[i] as int / 16));
                assert(t[i] == bytes[i]);
            }
        }
    }
}

/// A number in base sixteen, with small letters and without leading zeros.
pub open spec fn hex_number(n: nat) -> Seq<char>
    decreases n,
{
    if n < 16 {
        seq![hex_digit(n as int)]
    } else {
        hex_number(n / 16).push(hex_digit((n % 16) as int))
    }
}

/// Whether `s` is made of hexadecimal digits alone.
pub open spec fn all_hex(s: Seq<char>) -> bool {
    forall|i: int| 0 <= i < s.len() ==> hex_value(#[trigger] s[i]) is Some
}

/// The number that hexadecimal digits write.
pub open spec fn hex_digits_value(s: Seq<char>) -> int
    decreases s.len(),
{
    if s.len() == 0 {
        0
    } else {
        hex_digits_value(s.drop_last()) * 16 + hex_value(s.last())->0
    }
}

/// Appends a number in base sixteen.
pub fn push_hex(out: &mut String, n: u16)
    ensures
        final(out)@ == old(out)@ + hex_number(n as nat),
    decreases n,
{
    if n >= 16 {
        push_hex(out, n / 16);
    }
    out.push(hex_digit_char((n % 16) as u8));
    assert(out@ =~= old(out)@ + hex_number(n as nat));
}

/// A number written in base sixteen is made of hexadecimal digits and reads as itself.
pub proof fn lemma_hex_number(n: nat)
    ensures
        hex_number(n).len() >= 1,
        all_hex(hex_number(n)),
        hex_digits_value(hex_number(n)) == n,
        n < 0x10 ==> hex_number(n).len() <= 1,
        n < 0x100 ==> hex_number(n).len() <= 2,
        n < 0x1000 ==> hex_number(n).len() <= 3,
        n < 0x10000 ==> hex_number(n).len() <= 4,
    decreases n,
{
    let s = hex_number(n);
    if n < 16 {
        assert(s.drop_last() =~= Seq::<char>::empty());
        assert(hex_digits_value(Seq::<char>::empty()) == 0);
    } else {
        lemma_hex_number(n / 16);
        assert(s.drop_last() =~= hex_number(n / 16));
        assert forall|i: int| 0 <= i < s.len() implies hex_value(#[trigger] s[i]) is Some by {
            if i < s.len() - 1 {
                assert(hex_number(n / 16)[i] == s[i]);
            }
        }
    }
}

/// Texts one behind the other, with `c` between them.
pub open spec fn joined(parts: Seq<Seq<char>>, c: char) -> Seq<char>
    decreases parts.len(),
{
    if parts.len() == 0 {
        seq![]
    } else if parts.len() == 1 {
        parts[0]
    } else {
        parts[0] + seq![c] + joined(parts.skip(1), c)
    }
}

/// Joining the parts of a text at the separator gives the text back.
pub proof fn lemma_joined_pieces(s: Seq<char>, c: char)
    ensures
        pieces(s, c).len() >= 1,
        joined(pieces(s, c), c) == s,
    decreases s.len(),
{
    let p = position(s, c);
    lemma_position_bounds(s, c);
    if p < s.len() {
        let rest = s.skip(p + 1);
        lemma_joined_pieces(rest, c);
        assert(pieces(s, c).skip(1) =~= pieces(rest, c));
        assert(s =~= s.take(p) + seq![c] + rest);
    }
}

/// Splitting joined texts at the separator gives them back, where none of them holds it.
pub proof fn lemma_pieces_of_joined(parts: Seq<Seq<char>>, c: char)
    requires
        parts.len() > 0,
        forall|i: int| 0 <= i < parts.len() ==> !(#[trigger] parts[i]).contains(c),
    ensures
        pieces(joined(parts, c), c) == parts,
    decreases parts.len(),
{
    let s = joined(parts, c);
    let first = parts[0];
    if parts.len() == 1 {
        lemma_position_bounds(s, c);
        assert(pieces(s, c) =~= parts);
    } else {
        let rest = parts.skip(1);
        assert forall|i: int| 0 <= i < rest.len() implies !(#[trigger] rest[i]).contains(c) by {
            assert(rest[i] == parts[i + 1]);
        }
        lemma_pieces_of_joined(rest, c);
        assert forall|j: int| 0 <= j < first.len() implies s[j] != c by {
            assert(s[j] == first[j]);
            assert(first.contains(first[j]));
        }
        lemma_position(s, c, first.len() as int);
        assert(s.take(first.len() as int) =~= first);
        assert(s.skip(first.len() as int + 1) =~= joined(rest, c));
        assert(seq![first] + rest =~= parts);
    }
}

// ---------------------------------------------------------------------------------------------
// What the readings of a text are
// ---------------------------------------------------------------------------------------------

/// A text that was written as UTF-8 is read back as it was.
pub proof fn law_utf8_reads_back(s: Seq<char>)
    ensures
        lossy_text(vstd::utf8::encode_utf8(s)) == s,
{
    vstd::utf8::encode_utf8_valid_utf8(s);
    vstd::utf8::encode_utf8_decode_utf8(s);
}

/// Trimming takes off the white space at both ends, all of it and nothing else.
pub proof fn law_trimming(lead: Seq<char>, s: Seq<char>, trail: Seq<char>)
    requires
        forall|i: int| 0 <= i < lead.len() ==> is_white(#[trigger] lead[i]),
        forall|i: int| 0 <= i < trail.len() ==> is_white(#[trigger] trail[i]),
        s.len() > 0 ==> !is_white(s[0]) && !is_white(s.last()),
    ensures
        trimmed(lead + s + trail) == s,
{
    let t = lead + s + trail;
    if s.len() > 0 {
        assert(t[lead.len() as int] == s[0]);
        lemma_trimmed_start(t, lead.len() as int);
        let u = t.skip(lead.len() as int);
        assert(u =~= s + trail);
        assert(u[s.len() - 1] == s.last());
        lemma_trimmed_end(u, s.len() as int);
        assert(u.take(s.len() as int) =~= s);
    } else {
        assert forall|j: int| 0 <= j < t.len() implies is_white(#[trigger] t[j]) by {
            if j >= lead.len() {
                assert(t[j] == trail[j - lead.len()]);
            }
        }
        lemma_trimmed_start(t, t.len() as int);
        assert(t.skip(t.len() as int) =~= s);
        lemma_trimmed_end(s, 0);
    }
}

/// The first word of a text is what stands before its first white space, and the others are the
/// words behind it; a text without white space is one word, and one of white space has none.
pub proof fn law_words(word: Seq<char>, white: char, rest: Seq<char>)
    requires
        word.len() > 0,
        forall|i: int| 0 <= i < word.len() ==> !is_white(#[trigger] word[i]),
        is_white(white),
    ensures
        words(word + seq![white] + rest) == seq![word] + words(rest),
        words(seq![white] + rest) == words(rest),
        words(word) == seq![word],
        words(Seq::<char>::empty()) == Seq::<Seq<char>>::empty(),
{
    lemma_one_word(word);
    let t = seq![white] + rest;
    assert(t.skip(1) =~= rest);
    assert(trimmed_start(t) == trimmed_start(rest));
    assert(words(t) == words(rest));
    let s = word + seq![white] + rest;
    assert(s[0] == word[0]);
    assert(trimmed_start(s) == s);
    lemma_word_end(s);
    let k = word_end(s);
    let n = word.len() as int;
    if k < n {
        assert(s[k] == word[k]);
    }
    if k > n {
        assert(s[n] == white);
    }
    assert(s.take(k) =~= word);
    assert(s.skip(k) =~= t);
}

/// What stands before and behind the first `c` of a text; a text without it is not cut.
pub proof fn law_cut(before: Seq<char>, c: char, behind: Seq<char>)
    requires
        !before.contains(c),
    ensures
        cut(before + seq![c] + behind, c) == Some((before, behind)),
        cut(before, c) is None,
{
    let s = before + seq![c] + behind;
    let n = before.len() as int;
    lemma_position_bounds(s, c);
    lemma_position_bounds(before, c);
    assert(s[n] == c);
    if position(s, c) < n {
        assert(before[position(s, c)] == c);
        assert(before.contains(c));
    }
    if position(before, c) < n {
        assert(before.contains(c));
    }
    assert(position(s, c) == n);
    assert(s.take(n) =~= before);
    assert(s.skip(n + 1) =~= behind);
}

/// A text with a separator has what stands before it as its first part, and the parts of what
/// stands behind it as the others; a text without one is its own only part.
pub proof fn law_parts(before: Seq<char>, c: char, behind: Seq<char>)
    requires
        !before.contains(c),
    ensures
        pieces(before + seq![c] + behind, c) == seq![before] + pieces(behind, c),
        pieces(before, c) == seq![before],
{
    law_cut(before, c, behind);
    lemma_position_bounds(before, c);
    lemma_position_bounds(before + seq![c] + behind, c);
}

/// A line ends at its line feed, with or without a carriage return before it; what follows are
/// the other lines. Text without a line feed is one line.
pub proof fn law_lines(line: Seq<char>, rest: Seq<char>)
    requires
        !line.contains('\n'),
        line.len() == 0 || line.last() != '\r',
    ensures
        text_lines(line + seq!['\n'] + rest) == seq![line] + text_lines(rest),
        text_lines(line + seq!['\r', '\n'] + rest) == seq![line] + text_lines(rest),
        line.len() > 0 ==> text_lines(line) == seq![line],
        text_lines(Seq::<char>::empty()) == Seq::<Seq<char>>::empty(),
{
    law_cut(line, '\n', rest);
    lemma_position_bounds(line, '\n');
    lemma_position_bounds(line + seq!['\n'] + rest, '\n');
    assert(without_cr(line) == line);
    let ended = line + seq!['\r'];
    assert(!ended.contains('\n')) by {
        if ended.contains('\n') {
            let i = choose|i: int| 0 <= i < ended.len() && ended[i] == '\n';
            assert(line[i] == '\n');
        }
    }
    law_cut(ended, '\n', rest);
    assert(line + seq!['\r', '\n'] + rest =~= ended + seq!['\n'] + rest);
    lemma_position_bounds(ended + seq!['\n'] + rest, '\n');
    assert(ended.drop_last() =~= line);
}

/// The same with lines that end in a carriage return and a line feed, as a request's head has
/// them: a head is cut exactly there.
pub proof fn law_head_lines(line: Seq<char>, rest: Seq<char>)
    requires
        !line.contains('\n'),
    ensures
        pieces_by(line + "\r\n"@ + rest, "\r\n"@) == seq![line] + pieces_by(rest, "\r\n"@),
        pieces_by(line, "\r\n"@) == seq![line],
{
    let end = "\r\n"@;
    reveal_strlit("\r\n");
    assert(end.len() == 2 && end[0] == '\r' && end[1] == '\n');
    let s = line + end + rest;
    let n = line.len() as int;
    assert(s.subrange(n, n + 2) =~= end);
    assert(stands_at(s, end, n));
    assert forall|j: int| 0 <= j < n implies !stands_at(s, end, j) by {
        if stands_at(s, end, j) {
            assert(s.subrange(j, j + 2)[1] == s[j + 1]);
            if j + 1 < n {
                assert(line[j + 1] == '\n');
                assert(line.contains('\n'));
            } else {
                assert(s[n] == '\r');
            }
        }
    }
    lemma_seek_is(s, end, n);
    assert(s.take(n) =~= line);
    assert(s.skip(n + 2) =~= rest);
    lemma_seek(line, end);
    match seek(line, end) {
        Some(i) => {
            assert(line.subrange(i, i + 2)[1] == line[i + 1]);
            assert(line.contains('\n'));
        },
        None => {},
    }
}

/// Two texts are the same but for case exactly if they are of one length and differ at most in
/// that a letter from A to Z stands in place of its small one.
pub proof fn law_case_is_ignored(a: Seq<char>, b: Seq<char>)
    ensures
        same_but_case(a, b) <==> a.len() == b.len() && forall|i: int|
            0 <= i < a.len() ==> #[trigger] a[i] == b[i] || ('A' <= a[i] <= 'Z' && b[i] as int
                == a[i] as int + 32) || ('A' <= b[i] <= 'Z' && a[i] as int == b[i] as int + 32),
        same_but_case(a, b) == same_but_case(b, a),
        same_but_case(a, a),
{
    assert(same_but_case(b, a) ==> same_but_case(a, b)) by {
        if same_but_case(b, a) {
            assert forall|i: int| 0 <= i < a.len() implies small(#[trigger] a[i]) == small(b[i]) by {
                assert(small(b[i]) == small(a[i]));
            }
        }
    }
    assert(same_but_case(a, b) ==> same_but_case(b, a)) by {
        if same_but_case(a, b) {
            assert forall|i: int| 0 <= i < b.len() implies small(#[trigger] b[i]) == small(a[i]) by {
                assert(small(a[i]) == small(b[i]));
            }
        }
    }
}

/// A digit behind the digits of a number makes ten times the number and the digit; the text of a
/// number has no zero before it.
pub proof fn law_decimal_places(n: nat, d: nat)
    requires
        d < 10,
    ensures
        n > 0 ==> decimal(n * 10 + d) == decimal(n).push((48 + d) as char),
        decimal(d) == seq![(48 + d) as char],
        n > 0 ==> decimal(n)[0] != '0',
    decreases n,
{
    if n > 0 {
        assert((n * 10 + d) / 10 == n && (n * 10 + d) % 10 == d);
        if n >= 10 {
            law_decimal_places(n / 10, 0);
            lemma_decimal(n / 10);
        }
    }
}

} // verus!
