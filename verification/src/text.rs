//! Text as sequences of characters: the small vocabulary of string operations
//! that the rest of the library is specified with, and their executable forms.
use vstd::prelude::*;

verus! {

/// Appends one character, as `String::push` documents.
pub assume_specification[ String::push ](s: &mut String, c: char)
    ensures
        final(s)@ == old(s)@.push(c),
;

// ---------------------------------------------------------------------------
// Characters
// ---------------------------------------------------------------------------

/// The characters with the Unicode `White_Space` property.
pub open spec fn is_space(c: char) -> bool {
    let n = c as u32;
    ||| 9 <= n <= 13
    ||| n == 0x20
    ||| n == 0x85
    ||| n == 0xa0
    ||| n == 0x1680
    ||| 0x2000 <= n <= 0x200a
    ||| n == 0x2028
    ||| n == 0x2029
    ||| n == 0x202f
    ||| n == 0x205f
    ||| n == 0x3000
}

pub fn space_char(c: char) -> (r: bool)
    ensures
        r == is_space(c),
{
    let n: u32 = c as u32;
    (9 <= n && n <= 13) || n == 0x20 || n == 0x85 || n == 0xa0 || n == 0x1680 || (0x2000 <= n && n
        <= 0x200a) || n == 0x2028 || n == 0x2029 || n == 0x202f || n == 0x205f || n == 0x3000
}

pub open spec fn is_lower(c: char) -> bool {
    97 <= c as u32 <= 122
}

pub open spec fn is_upper(c: char) -> bool {
    65 <= c as u32 <= 90
}

pub open spec fn is_digit(c: char) -> bool {
    48 <= c as u32 <= 57
}

/// ASCII letters.
pub open spec fn is_letter(c: char) -> bool {
    is_lower(c) || is_upper(c)
}

/// ASCII letters and digits.
pub open spec fn is_alnum(c: char) -> bool {
    is_letter(c) || is_digit(c)
}

pub fn lower_char(c: char) -> (r: bool)
    ensures
        r == is_lower(c),
{
    let n: u32 = c as u32;
    97 <= n && n <= 122
}

pub fn digit_char(c: char) -> (r: bool)
    ensures
        r == is_digit(c),
{
    let n: u32 = c as u32;
    48 <= n && n <= 57
}

pub fn letter_char(c: char) -> (r: bool)
    ensures
        r == is_letter(c),
{
    let n: u32 = c as u32;
    (97 <= n && n <= 122) || (65 <= n && n <= 90)
}

pub fn alnum_char(c: char) -> (r: bool)
    ensures
        r == is_alnum(c),
{
    letter_char(c) || digit_char(c)
}

// ---------------------------------------------------------------------------
// Conversions
// ---------------------------------------------------------------------------

/// The views of a list of strings.
pub open spec fn texts(v: Seq<String>) -> Seq<Seq<char>> {
    Seq::new(v.len(), |i: int| v[i]@)
}

/// Lists of strings that read the same agree string by string.
pub proof fn same_texts(a: Seq<String>, b: Seq<String>)
    requires
        texts(a) == texts(b),
    ensures
        a.len() == b.len(),
        forall|i: int| 0 <= i < a.len() ==> (#[trigger] a[i])@ == b[i]@,
{
    assert(texts(a).len() == a.len());
    assert(texts(b).len() == b.len());
    assert forall|i: int| 0 <= i < a.len() implies (#[trigger] a[i])@ == b[i]@ by {
        assert(texts(a)[i] == a[i]@);
        assert(texts(b)[i] == b[i]@);
    }
}

/// The view of an optional string.
pub open spec fn opt_text(s: Option<String>) -> Option<Seq<char>> {
    match s {
        Some(t) => Some(t@),
        None => None,
    }
}

pub open spec fn opt_str(s: Option<&str>) -> Option<Seq<char>> {
    match s {
        Some(t) => Some(t@),
        None => None,
    }
}

pub fn same(a: &str, b: &str) -> (r: bool)
    ensures
        r == (a@ == b@),
{
    a.to_owned() == b.to_owned()
}

pub fn chars_of(s: &str) -> (v: Vec<char>)
    ensures
        v@ == s@,
{
    let mut v: Vec<char> = Vec::new();
    for c in it: s.chars()
        invariant
            v@ == it.seq().take(it.index() as int),
            it.seq() == s@,
    {
        v.push(c);
    }
    v
}

/// The characters from `from` up to `to`.
pub fn piece(v: &Vec<char>, from: usize, to: usize) -> (s: String)
    requires
        from <= to <= v@.len(),
    ensures
        s@ == v@.subrange(from as int, to as int),
{
    let mut s = String::new();
    let mut i: usize = from;
    while i < to
        invariant
            from <= i <= to <= v@.len(),
            s@ == v@.subrange(from as int, i as int),
        decreases to - i,
    {
        s.push(v[i]);
        i = i + 1;
        assert(v@.subrange(from as int, i as int) =~= v@.subrange(from as int, i - 1).push(
            v@[i - 1],
        ));
    }
    s
}

/// A copy of a list of strings.
pub fn copy_list(v: &Vec<String>) -> (r: Vec<String>)
    ensures
        texts(r@) == texts(v@),
{
    let mut r: Vec<String> = Vec::new();
    let mut i: usize = 0;
    while i < v.len()
        invariant
            i <= v@.len(),
            texts(r@) == texts(v@).take(i as int),
        decreases v@.len() - i,
    {
        let ghost before = texts(r@);
        r.push(v[i].clone());
        assert(texts(r@) =~= before.push(v@[i as int]@));
        i = i + 1;
        assert(texts(v@).take(i as int) =~= texts(v@).take(i - 1).push(v@[i - 1]@));
    }
    assert(texts(v@).take(i as int) =~= texts(v@));
    r
}

/// Whether `key` is one of the strings of `v`.
pub fn has_text(v: &Vec<String>, key: &str) -> (r: bool)
    ensures
        r == texts(v@).contains(key@),
{
    let mut i: usize = 0;
    while i < v.len()
        invariant
            i <= v@.len(),
            forall|j: int| 0 <= j < i ==> texts(v@)[j] != key@,
        decreases v@.len() - i,
    {
        if same(v[i].as_str(), key) {
            assert(texts(v@)[i as int] == key@);
            return true;
        }
        i = i + 1;
    }
    false
}

/// Whether `s` is one of a fixed list of words.
pub(crate) fn one_of(s: &str, words: &Vec<&str>, Ghost(list): Ghost<Seq<Seq<char>>>) -> (r: bool)
    requires
        words@.len() == list.len(),
        forall|i: int| 0 <= i < list.len() ==> #[trigger] list[i] == words@[i]@,
    ensures
        r == list.contains(s@),
{
    let mut i: usize = 0;
    while i < words.len()
        invariant
            i <= words@.len() == list.len(),
            forall|j: int| 0 <= j < list.len() ==> #[trigger] list[j] == words@[j]@,
            forall|j: int| 0 <= j < i ==> #[trigger] list[j] != s@,
        decreases words@.len() - i,
    {
        if same(words[i], s) {
            assert(list[i as int] == s@);
            return true;
        }
        i = i + 1;
    }
    false
}

// ---------------------------------------------------------------------------
// Prefixes and substrings
// ---------------------------------------------------------------------------

/// `pat` stands in `s` at position `i`.
pub open spec fn occurs_at(s: Seq<char>, pat: Seq<char>, i: int) -> bool {
    &&& 0 <= i
    &&& i + pat.len() <= s.len()
    &&& s.subrange(i, i + pat.len()) == pat
}

pub open spec fn starts_with(s: Seq<char>, pat: Seq<char>) -> bool {
    occurs_at(s, pat, 0)
}

pub open spec fn ends_with(s: Seq<char>, pat: Seq<char>) -> bool {
    occurs_at(s, pat, s.len() - pat.len())
}

pub open spec fn contains(s: Seq<char>, pat: Seq<char>) -> bool {
    exists|i: int| #[trigger] occurs_at(s, pat, i)
}

/// The first position at or after `from` where `pat` stands in `s`.
pub open spec fn first_from(s: Seq<char>, pat: Seq<char>, from: int) -> Option<int>
    decreases s.len() + 1 - from,
{
    if from < 0 || from + pat.len() > s.len() {
        None
    } else if occurs_at(s, pat, from) {
        Some(from)
    } else {
        first_from(s, pat, from + 1)
    }
}

pub fn at(s: &Vec<char>, pat: &Vec<char>, i: usize) -> (r: bool)
    ensures
        r == occurs_at(s@, pat@, i as int),
{
    if pat.len() > s.len() || i > s.len() - pat.len() {
        return false;
    }
    let mut k: usize = 0;
    while k < pat.len()
        invariant
            i + pat@.len() <= s@.len() == s.len(),
            k <= pat@.len(),
            s@.subrange(i as int, i + k) == pat@.take(k as int),
        decreases pat@.len() - k,
    {
        if s[i + k] != pat[k] {
            assert(s@.subrange(i as int, i + pat@.len())[k as int] != pat@[k as int]);
            return false;
        }
        k = k + 1;
        assert(s@.subrange(i as int, i + k) =~= s@.subrange(i as int, i + k - 1).push(
            s@[i + k - 1],
        ));
        assert(pat@.take(k as int) =~= pat@.take(k - 1).push(pat@[k - 1]));
    }
    assert(pat@.take(k as int) =~= pat@);
    true
}

pub proof fn first_from_is_first(s: Seq<char>, pat: Seq<char>, from: int)
    requires
        0 <= from,
    ensures
        match first_from(s, pat, from) {
            Some(i) => {
                &&& from <= i
                &&& occurs_at(s, pat, i)
                &&& forall|j: int| from <= j < i ==> !#[trigger] occurs_at(s, pat, j)
            },
            None => forall|j: int| from <= j ==> !#[trigger] occurs_at(s, pat, j),
        },
    decreases s.len() + 1 - from,
{
    if from + pat.len() > s.len() {
    } else if occurs_at(s, pat, from) {
    } else {
        first_from_is_first(s, pat, from + 1);
    }
}

pub fn find_from(s: &Vec<char>, pat: &Vec<char>, from: usize) -> (r: Option<usize>)
    ensures
        match r {
            Some(i) => first_from(s@, pat@, from as int) == Some(i as int),
            None => first_from(s@, pat@, from as int) is None,
        },
        r is Some ==> from <= r->0 && occurs_at(s@, pat@, r->0 as int),
{
    let mut i: usize = from;
    if pat.len() > s.len() {
        return None;
    }
    let last: usize = s.len() - pat.len();
    while i <= last
        invariant
            from <= i,
            last == s@.len() - pat@.len(),
            first_from(s@, pat@, from as int) == first_from(s@, pat@, i as int),
        decreases last + 1 - i,
    {
        if at(s, pat, i) {
            return Some(i);
        }
        if i == last {
            assert(first_from(s@, pat@, i + 1) is None);
            return None;
        }
        i = i + 1;
    }
    None
}

pub fn has_substring(s: &str, pat: &str) -> (r: bool)
    ensures
        r == contains(s@, pat@),
{
    let v = chars_of(s);
    let p = chars_of(pat);
    let found = find_from(&v, &p, 0);
    proof {
        first_from_is_first(s@, pat@, 0);
    }
    found.is_some()
}

pub fn has_prefix(s: &str, pat: &str) -> (r: bool)
    ensures
        r == starts_with(s@, pat@),
{
    at(&chars_of(s), &chars_of(pat), 0)
}

pub fn has_suffix(s: &str, pat: &str) -> (r: bool)
    ensures
        r == ends_with(s@, pat@),
{
    let v = chars_of(s);
    let p = chars_of(pat);
    if p.len() > v.len() {
        false
    } else {
        at(&v, &p, v.len() - p.len())
    }
}

/// No ASCII letter stands right before `start` nor at `end`.
pub open spec fn stands_alone(s: Seq<char>, start: int, end: int) -> bool {
    &&& start == 0 || !is_letter(s[start - 1])
    &&& end >= s.len() || !is_letter(s[end])
}

/// One of the occurrences of `word`, taken from `from` on without overlap, stands
/// alone.
pub open spec fn word_from(s: Seq<char>, word: Seq<char>, from: int) -> bool
    decreases s.len() - from,
{
    if word.len() == 0 {
        false
    } else {
        match first_from(s, word, from) {
            Some(i) => stands_alone(s, i, i + word.len()) || (from <= i && i + word.len()
                <= s.len() && word_from(s, word, i + word.len())),
            None => false,
        }
    }
}

/// A word match is an occurrence that stands alone.
pub proof fn word_match_is_a_word(s: Seq<char>, word: Seq<char>, from: int)
    requires
        0 <= from,
        word_from(s, word, from),
    ensures
        exists|i: int|
            from <= i && #[trigger] occurs_at(s, word, i) && stands_alone(s, i, i + word.len()),
    decreases s.len() - from,
{
    first_from_is_first(s, word, from);
    let i = first_from(s, word, from)->0;
    if !stands_alone(s, i, i + word.len()) {
        word_match_is_a_word(s, word, i + word.len());
        let j = choose|j: int|
            i + word.len() <= j && #[trigger] occurs_at(s, word, j) && stands_alone(
                s,
                j,
                j + word.len(),
            );
        assert(from <= j && occurs_at(s, word, j));
    }
}

/// A word of letters alone matches exactly where it stands as a word of its own.
pub proof fn letters_match_every_word(s: Seq<char>, word: Seq<char>, from: int)
    requires
        0 <= from,
        word.len() > 0,
        forall|k: int| 0 <= k < word.len() ==> is_letter(#[trigger] word[k]),
    ensures
        word_from(s, word, from) <==> exists|i: int|
            from <= i && #[trigger] occurs_at(s, word, i) && stands_alone(s, i, i + word.len()),
    decreases s.len() - from,
{
    if word_from(s, word, from) {
        word_match_is_a_word(s, word, from);
    }
    first_from_is_first(s, word, from);
    if exists|i: int|
        from <= i && #[trigger] occurs_at(s, word, i) && stands_alone(s, i, i + word.len()) {
        let i = choose|i: int|
            from <= i && #[trigger] occurs_at(s, word, i) && stands_alone(s, i, i + word.len());
        let first = first_from(s, word, from)->0;
        if !stands_alone(s, first, first + word.len()) {
            if i < first + word.len() {
                assert(s[i - 1] == s.subrange(first, first + word.len())[i - 1 - first]);
                assert(is_letter(word[i - 1 - first]));
            }
            letters_match_every_word(s, word, first + word.len());
        }
    }
}

/// Look for a word that no letter touches.
pub fn find_word(text: &str, word: &str) -> (r: bool)
    requires
        word@.len() > 0,
    ensures
        r == word_from(text@, word@, 0),
{
    let t = chars_of(text);
    let w = chars_of(word);
    let mut from: usize = 0;
    while from <= t.len()
        invariant
            t@ == text@,
            w@ == word@,
            w@.len() > 0,
            from <= t@.len(),
            word_from(text@, word@, 0) == word_from(text@, word@, from as int),
        decreases t@.len() - from,
    {
        match find_from(&t, &w, from) {
            None => {
                return false;
            },
            Some(start) => {
                let end: usize = start + w.len();
                let left = start == 0 || !letter_char(t[start - 1]);
                let right = end >= t.len() || !letter_char(t[end]);
                if left && right {
                    return true;
                }
                from = end;
            },
        }
    }
    false
}

/// The first position of a character.
pub open spec fn char_index(s: Seq<char>, c: char) -> Option<int>
    decreases s.len(),
{
    if s.len() == 0 {
        None
    } else {
        match char_index(s.drop_last(), c) {
            Some(i) => Some(i),
            None => if s.last() == c {
                Some(s.len() - 1)
            } else {
                None
            },
        }
    }
}

pub proof fn char_index_is_first(s: Seq<char>, c: char)
    ensures
        match char_index(s, c) {
            Some(i) => 0 <= i < s.len() && s[i] == c && forall|j: int| 0 <= j < i ==> s[j] != c,
            None => forall|j: int| 0 <= j < s.len() ==> s[j] != c,
        },
    decreases s.len(),
{
    if s.len() > 0 {
        char_index_is_first(s.drop_last(), c);
        assert forall|j: int| 0 <= j < s.len() - 1 implies s[j] == s.drop_last()[j] by {}
    }
}

pub fn find_char(v: &Vec<char>, c: char) -> (r: Option<usize>)
    ensures
        match r {
            Some(i) => char_index(v@, c) == Some(i as int) && i < v@.len(),
            None => char_index(v@, c) is None,
        },
{
    proof {
        char_index_is_first(v@, c);
    }
    let mut i: usize = 0;
    while i < v.len()
        invariant
            i <= v@.len(),
            forall|j: int| 0 <= j < i ==> v@[j] != c,
        decreases v@.len() - i,
    {
        if v[i] == c {
            proof {
                char_index_is_first(v@, c);
                assert(v@[i as int] == c);
            }
            return Some(i);
        }
        i = i + 1;
    }
    None
}

/// Every non-overlapping occurrence of `pat`, taken from the left, replaced by `to`.
pub open spec fn replaced(s: Seq<char>, pat: Seq<char>, to: Seq<char>) -> Seq<char>
    decreases s.len(),
{
    if s.len() == 0 || pat.len() == 0 {
        s
    } else if starts_with(s, pat) {
        to + replaced(s.skip(pat.len() as int), pat, to)
    } else {
        seq![s[0]] + replaced(s.skip(1), pat, to)
    }
}

pub fn replace(s: &str, pat: &str, to: &str) -> (r: String)
    requires
        pat@.len() > 0,
    ensures
        r@ == replaced(s@, pat@, to@),
{
    let v = chars_of(s);
    let p = chars_of(pat);
    let mut out = String::new();
    let mut i: usize = 0;
    assert(v@.skip(0) =~= v@);
    assert(out@ + replaced(v@, p@, to@) =~= replaced(v@, p@, to@));
    while i < v.len()
        invariant
            v@ == s@,
            p@ == pat@,
            p@.len() > 0,
            i <= v@.len(),
            out@ + replaced(v@.skip(i as int), p@, to@) == replaced(s@, p@, to@),
        decreases v@.len() - i,
    {
        proof {
            let rest = v@.skip(i as int);
            assert(rest.subrange(0, p@.len() as int) =~= v@.subrange(i as int, i + p@.len()) || i
                + p@.len() > v@.len());
            assert(rest.skip(1) =~= v@.skip(i + 1));
            if i + p@.len() <= v@.len() {
                assert(rest.skip(p@.len() as int) =~= v@.skip(i + p@.len()));
            }
        }
        let ghost before = out@;
        if at(&v, &p, i) {
            out.append(to);
            i = i + p.len();
            assert(before + (to@ + replaced(v@.skip(i as int), p@, to@)) =~= out@ + replaced(
                v@.skip(i as int),
                p@,
                to@,
            ));
        } else {
            out.push(v[i]);
            i = i + 1;
            assert(before + (seq![v@[i - 1]] + replaced(v@.skip(i as int), p@, to@)) =~= out@
                + replaced(v@.skip(i as int), p@, to@));
        }
    }
    assert(v@.skip(i as int) =~= Seq::<char>::empty());
    assert(out@ + Seq::<char>::empty() =~= out@);
    out
}

// ---------------------------------------------------------------------------
// Trimming and splitting
// ---------------------------------------------------------------------------

pub open spec fn trim_start(s: Seq<char>) -> Seq<char>
    decreases s.len(),
{
    if s.len() > 0 && is_space(s[0]) {
        trim_start(s.skip(1))
    } else {
        s
    }
}

pub open spec fn trim_end(s: Seq<char>) -> Seq<char>
    decreases s.len(),
{
    if s.len() > 0 && is_space(s.last()) {
        trim_end(s.drop_last())
    } else {
        s
    }
}

/// The text without the white space at its ends.
pub open spec fn trimmed(s: Seq<char>) -> Seq<char> {
    trim_end(trim_start(s))
}

/// The text without the characters `c` at its start.
pub open spec fn trim_start_char(s: Seq<char>, c: char) -> Seq<char>
    decreases s.len(),
{
    if s.len() > 0 && s[0] == c {
        trim_start_char(s.skip(1), c)
    } else {
        s
    }
}

pub fn strip_leading(s: &str, c: char) -> (r: String)
    ensures
        r@ == trim_start_char(s@, c),
{
    let v = chars_of(s);
    let n: usize = v.len();
    let mut i: usize = 0;
    assert(v@.skip(0) =~= v@);
    while i < n && v[i] == c
        invariant
            i <= n == v@.len(),
            trim_start_char(v@, c) == trim_start_char(v@.skip(i as int), c),
        decreases n - i,
    {
        assert(v@.skip(i as int).skip(1) =~= v@.skip(i + 1));
        i = i + 1;
    }
    let r = piece(&v, i, n);
    assert(r@ =~= v@.skip(i as int));
    r
}

/// Remove the white space at the start.
pub fn trim_left(s: &str) -> (r: String)
    ensures
        r@ == trim_start(s@),
{
    let v = chars_of(s);
    let n: usize = v.len();
    let mut i: usize = 0;
    assert(v@.skip(0) =~= v@);
    while i < n && space_char(v[i])
        invariant
            i <= n == v@.len(),
            trim_start(v@) == trim_start(v@.skip(i as int)),
        decreases n - i,
    {
        assert(v@.skip(i as int).skip(1) =~= v@.skip(i + 1));
        i = i + 1;
    }
    let r = piece(&v, i, n);
    assert(r@ =~= v@.skip(i as int));
    r
}

/// What follows a prefix.
pub open spec fn after_prefix(s: Seq<char>, pat: Seq<char>) -> Option<Seq<char>> {
    if starts_with(s, pat) {
        Some(s.skip(pat.len() as int))
    } else {
        None
    }
}

pub fn strip_prefix(s: &str, pat: &str) -> (r: Option<String>)
    ensures
        opt_text(r) == after_prefix(s@, pat@),
{
    let v = chars_of(s);
    let p = chars_of(pat);
    if at(&v, &p, 0) {
        let r = piece(&v, p.len(), v.len());
        assert(r@ =~= v@.skip(p@.len() as int));
        Some(r)
    } else {
        None
    }
}

/// Nothing but white space.
pub open spec fn is_blank(s: Seq<char>) -> bool {
    forall|i: int| 0 <= i < s.len() ==> is_space(#[trigger] s[i])
}

pub fn trim(s: &str) -> (r: String)
    ensures
        r@ == trimmed(s@),
{
    let v = chars_of(s);
    let mut from: usize = 0;
    assert(v@.skip(0) =~= v@);
    while from < v.len() && space_char(v[from])
        invariant
            from <= v@.len(),
            trim_start(v@) == trim_start(v@.skip(from as int)),
        decreases v@.len() - from,
    {
        from = from + 1;
        assert(v@.skip(from - 1).skip(1) =~= v@.skip(from as int));
    }
    let mut to: usize = v.len();
    let ghost head = v@.skip(from as int);
    assert(trim_start(v@) == head);
    assert(v@.subrange(from as int, to as int) =~= head);
    while to > from && space_char(v[to - 1])
        invariant
            from <= to <= v@.len(),
            trim_end(head) == trim_end(v@.subrange(from as int, to as int)),
        decreases to,
    {
        to = to - 1;
        assert(v@.subrange(from as int, to + 1).drop_last() =~= v@.subrange(
            from as int,
            to as int,
        ));
    }
    piece(&v, from, to)
}

pub proof fn blank_trims_to_nothing(s: Seq<char>)
    ensures
        is_blank(s) <==> trimmed(s).len() == 0,
    decreases s.len(),
{
    if s.len() > 0 && is_space(s[0]) {
        blank_trims_to_nothing(s.skip(1));
        assert forall|i: int| is_blank(s.skip(1)) && 0 <= i < s.len() implies is_space(
            #[trigger] s[i],
        ) by {
            if i > 0 {
                assert(s.skip(1)[i - 1] == s[i]);
            }
        }
        assert(is_blank(s) ==> is_blank(s.skip(1)));
    } else if s.len() > 0 {
        trim_end_keeps_head(s);
    }
}

proof fn trim_end_keeps_head(s: Seq<char>)
    requires
        s.len() > 0,
        !is_space(s[0]),
    ensures
        trim_end(s).len() > 0,
    decreases s.len(),
{
    if is_space(s.last()) {
        trim_end_keeps_head(s.drop_last());
    }
}

pub fn blank(s: &str) -> (r: bool)
    ensures
        r == is_blank(s@),
{
    let v = chars_of(s);
    let mut i: usize = 0;
    while i < v.len()
        invariant
            v@ == s@,
            i <= v@.len(),
            forall|j: int| 0 <= j < i ==> is_space(#[trigger] v@[j]),
        decreases v@.len() - i,
    {
        if !space_char(v[i]) {
            assert(!is_space(s@[i as int]));
            return false;
        }
        i = i + 1;
    }
    true
}

/// The parts of `s` between the occurrences of `sep`; one part where there is none.
pub open spec fn split(s: Seq<char>, sep: char) -> Seq<Seq<char>>
    decreases s.len(),
{
    if s.len() == 0 {
        seq![Seq::empty()]
    } else {
        let before = split(s.drop_last(), sep);
        if s.last() == sep {
            before.push(Seq::empty())
        } else {
            before.drop_last().push(before.last().push(s.last()))
        }
    }
}

pub proof fn split_is_not_empty(s: Seq<char>, sep: char)
    ensures
        split(s, sep).len() >= 1,
    decreases s.len(),
{
    if s.len() > 0 {
        split_is_not_empty(s.drop_last(), sep);
    }
}

/// A text without the separator is its only part.
pub proof fn split_without_separator(s: Seq<char>, sep: char)
    requires
        !s.contains(sep),
    ensures
        split(s, sep) == Seq::empty().push(s),
    decreases s.len(),
{
    if s.len() > 0 {
        let rest = s.drop_last();
        assert(!rest.contains(sep)) by {
            if rest.contains(sep) {
                let k = choose|k: int| 0 <= k < rest.len() && rest[k] == sep;
                assert(s[k] == sep);
            }
        }
        split_without_separator(rest, sep);
        assert(s[s.len() - 1] != sep);
        assert(rest.push(s.last()) =~= s);
        assert(split(s, sep) =~= Seq::empty().push(s));
    } else {
        assert(s =~= Seq::empty());
        assert(split(s, sep) =~= Seq::empty().push(s));
    }
}

/// What stands behind a separator is split by itself.
pub proof fn split_behind_separator(a: Seq<char>, b: Seq<char>, sep: char)
    requires
        a.len() > 0,
        a.last() == sep,
    ensures
        split(a + b, sep) == split(a, sep).drop_last() + split(b, sep),
    decreases b.len(),
{
    if b.len() == 0 {
        assert(a + b =~= a);
        assert(split(a, sep).drop_last() + split(b, sep) =~= split(a, sep));
    } else {
        split_behind_separator(a, b.drop_last(), sep);
        split_is_not_empty(b.drop_last(), sep);
        assert((a + b).drop_last() =~= a + b.drop_last());
        assert((a + b).last() == b.last());
        assert(split(a + b, sep) =~= split(a, sep).drop_last() + split(b, sep));
    }
}

/// Unless a text starts with the separator, its first part is not empty.
pub proof fn split_first_part(s: Seq<char>, sep: char)
    requires
        s.len() > 0,
        s[0] != sep,
    ensures
        split(s, sep)[0].len() > 0,
    decreases s.len(),
{
    let rest = s.drop_last();
    split_is_not_empty(rest, sep);
    if s.len() > 1 {
        split_first_part(rest, sep);
    } else {
        assert(rest =~= Seq::empty());
    }
}

/// The parts of a text, joined by the separator, are the text.
pub proof fn split_joined(s: Seq<char>, sep: char)
    ensures
        joined(split(s, sep), seq![sep]) == s,
    decreases s.len(),
{
    if s.len() == 0 {
        assert(s =~= Seq::empty());
    } else {
        let rest = s.drop_last();
        let before = split(rest, sep);
        split_joined(rest, sep);
        split_is_not_empty(rest, sep);
        assert(s =~= rest.push(s.last()));
        if s.last() == sep {
            assert(before.push(Seq::empty()).drop_last() =~= before);
            assert(joined(before, seq![sep]) + seq![sep] + Seq::<char>::empty() =~= s);
        } else {
            let now = before.drop_last().push(before.last().push(s.last()));
            assert(now.drop_last() =~= before.drop_last());
            if before.len() > 1 {
                assert(joined(now, seq![sep]) =~= joined(before, seq![sep]).push(s.last()));
            }
        }
    }
}

pub fn split_at_char(s: &str, sep: char) -> (r: Vec<String>)
    ensures
        texts(r@) == split(s@, sep),
{
    let v = chars_of(s);
    let mut parts: Vec<String> = Vec::new();
    let mut cur = String::new();
    let mut i: usize = 0;
    assert(texts(parts@).push(cur@) =~= split(v@.take(0), sep));
    while i < v.len()
        invariant
            i <= v@.len(),
            texts(parts@).push(cur@) == split(v@.take(i as int), sep),
        decreases v@.len() - i,
    {
        let ghost done = texts(parts@);
        let ghost open_part = cur@;
        assert(v@.take(i + 1).drop_last() =~= v@.take(i as int));
        assert(done.push(open_part).drop_last() =~= done);
        if v[i] == sep {
            parts.push(cur);
            cur = String::new();
            assert(texts(parts@) =~= done.push(open_part));
        } else {
            cur.push(v[i]);
            assert(texts(parts@).push(cur@) =~= done.push(open_part.push(v@[i as int])));
        }
        i = i + 1;
    }
    assert(v@.take(i as int) =~= v@);
    let ghost done = texts(parts@);
    let ghost open_part = cur@;
    parts.push(cur);
    assert(texts(parts@) =~= done.push(open_part));
    parts
}

/// The parts of an ASCII text are ASCII.
pub proof fn split_keeps_ascii(s: Seq<char>, sep: char)
    ensures
        is_ascii(s) ==> forall|k: int|
            0 <= k < split(s, sep).len() ==> is_ascii(#[trigger] split(s, sep)[k]),
    decreases s.len(),
{
    if s.len() > 0 && is_ascii(s) {
        let rest = s.drop_last();
        assert(is_ascii(rest)) by {
            assert forall|i: int| 0 <= i < rest.len() implies (#[trigger] rest[i]) as u32 <= 127 by {
                assert(s[i] as u32 <= 127);
            }
        }
        split_keeps_ascii(rest, sep);
        split_is_not_empty(rest, sep);
        let before = split(rest, sep);
        let now = split(s, sep);
        assert forall|k: int| 0 <= k < now.len() implies is_ascii(#[trigger] now[k]) by {
            if s.last() == sep {
                if k < before.len() {
                    assert(now[k] == before[k]);
                }
            } else if k < before.len() - 1 {
                assert(now[k] == before[k]);
            } else {
                assert(is_ascii(before[before.len() - 1]));
                assert(s[s.len() - 1] as u32 <= 127);
            }
        }
    }
}

/// Trimming an ASCII text leaves an ASCII text.
pub proof fn trimmed_keeps_ascii(s: Seq<char>)
    requires
        is_ascii(s),
    ensures
        is_ascii(trimmed(s)),
{
    trim_start_keeps_ascii(s);
    trim_end_keeps_ascii(trim_start(s));
}

proof fn trim_start_keeps_ascii(s: Seq<char>)
    requires
        is_ascii(s),
    ensures
        is_ascii(trim_start(s)),
    decreases s.len(),
{
    if s.len() > 0 && is_space(s[0]) {
        assert forall|i: int| 0 <= i < s.skip(1).len() implies (#[trigger] s.skip(1)[i]) as u32
            <= 127 by {
            assert(s[i + 1] as u32 <= 127);
        }
        trim_start_keeps_ascii(s.skip(1));
    }
}

proof fn trim_end_keeps_ascii(s: Seq<char>)
    requires
        is_ascii(s),
    ensures
        is_ascii(trim_end(s)),
    decreases s.len(),
{
    if s.len() > 0 && is_space(s.last()) {
        assert forall|i: int| 0 <= i < s.drop_last().len() implies (
        #[trigger] s.drop_last()[i]) as u32 <= 127 by {
            assert(s[i] as u32 <= 127);
        }
        trim_end_keeps_ascii(s.drop_last());
    }
}

/// One line as `str::lines` hands it out: without the carriage return that stands
/// before the line feed.
pub open spec fn without_cr(s: Seq<char>) -> Seq<char> {
    if s.len() > 0 && s.last() == '\r' {
        s.drop_last()
    } else {
        s
    }
}

pub open spec fn without_crs(parts: Seq<Seq<char>>) -> Seq<Seq<char>> {
    Seq::new(parts.len(), |i: int| without_cr(parts[i]))
}

/// The lines of a text. The last one is dropped where it is empty and keeps its
/// carriage return where no line feed follows.
pub open spec fn lines(s: Seq<char>) -> Seq<Seq<char>> {
    let parts = split(s, '\n');
    let full = without_crs(parts.drop_last());
    if parts.last().len() == 0 {
        full
    } else {
        full.push(parts.last())
    }
}

/// The lines of an ASCII text are ASCII.
pub proof fn lines_keep_ascii(s: Seq<char>)
    requires
        is_ascii(s),
    ensures
        forall|k: int| 0 <= k < lines(s).len() ==> is_ascii(#[trigger] lines(s)[k]),
{
    split_keeps_ascii(s, '\n');
    split_is_not_empty(s, '\n');
    let parts = split(s, '\n');
    assert forall|k: int| 0 <= k < lines(s).len() implies is_ascii(#[trigger] lines(s)[k]) by {
        if k < parts.len() - 1 {
            let part = parts[k];
            assert(is_ascii(part));
            assert(lines(s)[k] == without_cr(part));
            assert forall|i: int| 0 <= i < without_cr(part).len() implies (
            #[trigger] without_cr(part)[i]) as u32 <= 127 by {
                assert(part[i] as u32 <= 127);
            }
        } else {
            assert(lines(s)[k] == parts.last());
            assert(is_ascii(parts[parts.len() - 1]));
        }
    }
}

/// Dropping leading characters from an ASCII text leaves an ASCII text.
pub proof fn trim_start_char_keeps_ascii(s: Seq<char>, c: char)
    requires
        is_ascii(s),
    ensures
        is_ascii(trim_start_char(s, c)),
    decreases s.len(),
{
    if s.len() > 0 && s[0] == c {
        assert forall|i: int| 0 <= i < s.skip(1).len() implies (#[trigger] s.skip(1)[i]) as u32
            <= 127 by {
            assert(s[i + 1] as u32 <= 127);
        }
        trim_start_char_keeps_ascii(s.skip(1), c);
    }
}

pub fn line_list(s: &str) -> (r: Vec<String>)
    ensures
        texts(r@) == lines(s@),
{
    let parts = split_at_char(s, '\n');
    proof {
        split_is_not_empty(s@, '\n');
        assert(texts(parts@).len() == parts@.len());
    }
    let last: usize = parts.len() - 1;
    let ghost all = split(s@, '\n');
    let mut r: Vec<String> = Vec::new();
    let mut i: usize = 0;
    while i < last
        invariant
            all == texts(parts@),
            last == parts@.len() - 1,
            i <= last,
            texts(r@) == without_crs(all.take(i as int)),
        decreases last - i,
    {
        let v = chars_of(parts[i].as_str());
        assert(v@ == all[i as int]);
        let line = if v.len() > 0 && v[v.len() - 1] == '\r' {
            assert(v@.subrange(0, v@.len() - 1) =~= v@.drop_last());
            piece(&v, 0, v.len() - 1)
        } else {
            parts[i].clone()
        };
        assert(line@ == without_cr(all[i as int]));
        let ghost before = texts(r@);
        let ghost added = line@;
        r.push(line);
        assert(texts(r@) =~= before.push(added));
        i = i + 1;
        assert(without_crs(all.take(i as int)) =~= without_crs(all.take(i - 1)).push(added));
    }
    assert(all.take(i as int) =~= all.drop_last());
    let ghost full = texts(r@);
    if !parts[last].as_str().is_empty() {
        r.push(parts[last].clone());
        assert(texts(r@) =~= full.push(all.last()));
    }
    r
}

/// The first line of a text; empty where there is none.
pub open spec fn first_line(s: Seq<char>) -> Seq<char> {
    if lines(s).len() == 0 {
        Seq::empty()
    } else {
        lines(s)[0]
    }
}

pub fn head_line(s: &str) -> (r: String)
    ensures
        r@ == first_line(s@),
{
    let all = line_list(s);
    if all.len() == 0 {
        String::new()
    } else {
        assert(texts(all@)[0] == all@[0]@);
        all[0].clone()
    }
}

/// The parts of `s` between its white space; empty ones where spaces stand side by
/// side or at an end.
pub open spec fn space_parts(s: Seq<char>) -> Seq<Seq<char>>
    decreases s.len(),
{
    if s.len() == 0 {
        seq![Seq::empty()]
    } else {
        let before = space_parts(s.drop_last());
        if is_space(s.last()) {
            before.push(Seq::empty())
        } else {
            before.drop_last().push(before.last().push(s.last()))
        }
    }
}

/// The parts that are not empty.
pub open spec fn non_empty(parts: Seq<Seq<char>>) -> Seq<Seq<char>>
    decreases parts.len(),
{
    if parts.len() == 0 {
        Seq::empty()
    } else if parts.last().len() == 0 {
        non_empty(parts.drop_last())
    } else {
        non_empty(parts.drop_last()).push(parts.last())
    }
}

/// The words of a text: its longest runs without white space.
pub open spec fn words(s: Seq<char>) -> Seq<Seq<char>> {
    non_empty(space_parts(s))
}

proof fn non_empty_push(parts: Seq<Seq<char>>, part: Seq<char>)
    ensures
        non_empty(parts.push(part)) == if part.len() == 0 {
            non_empty(parts)
        } else {
            non_empty(parts).push(part)
        },
{
    assert(parts.push(part).drop_last() =~= parts);
}

/// Split a text into its words.
pub fn word_list(s: &str) -> (r: Vec<String>)
    ensures
        texts(r@) == words(s@),
{
    let v = chars_of(s);
    let mut found: Vec<String> = Vec::new();
    let mut cur = String::new();
    let mut i: usize = 0;
    let ghost mut done: Seq<Seq<char>> = Seq::empty();
    assert(done.push(cur@) =~= space_parts(v@.take(0)));
    assert(texts(found@) =~= non_empty(done));
    while i < v.len()
        invariant
            i <= v@.len(),
            done.push(cur@) == space_parts(v@.take(i as int)),
            texts(found@) == non_empty(done),
        decreases v@.len() - i,
    {
        let ghost open_part = cur@;
        assert(v@.take(i + 1).drop_last() =~= v@.take(i as int));
        assert(done.push(open_part).drop_last() =~= done);
        if space_char(v[i]) {
            proof {
                non_empty_push(done, open_part);
                done = done.push(open_part);
            }
            if !cur.as_str().is_empty() {
                let ghost before = texts(found@);
                found.push(cur);
                assert(texts(found@) =~= before.push(open_part));
            }
            cur = String::new();
        } else {
            cur.push(v[i]);
            assert(done.push(cur@) =~= done.push(open_part.push(v@[i as int])));
        }
        i = i + 1;
    }
    assert(v@.take(i as int) =~= v@);
    let ghost open_part = cur@;
    proof {
        non_empty_push(done, open_part);
    }
    if !cur.as_str().is_empty() {
        let ghost before = texts(found@);
        found.push(cur);
        assert(texts(found@) =~= before.push(open_part));
    }
    found
}

/// What a list holds once a text has been added.
pub proof fn push_contains(s: Seq<Seq<char>>, x: Seq<char>, p: Seq<char>)
    ensures
        s.push(x).contains(p) <==> s.contains(p) || p == x,
{
    if s.contains(p) {
        let j = choose|j: int| 0 <= j < s.len() && s[j] == p;
        assert(s.push(x)[j] == p);
    }
    if p == x {
        assert(s.push(x)[s.len() as int] == p);
    }
    if s.push(x).contains(p) {
        let j = choose|j: int| 0 <= j < s.push(x).len() && s.push(x)[j] == p;
        if j < s.len() {
            assert(s[j] == p);
        }
    }
}

/// The texts without repetitions, in the order in which each was first seen.
pub open spec fn first_seen(parts: Seq<Seq<char>>) -> Seq<Seq<char>>
    decreases parts.len(),
{
    if parts.len() == 0 {
        Seq::empty()
    } else {
        let before = first_seen(parts.drop_last());
        if before.contains(parts.last()) {
            before
        } else {
            before.push(parts.last())
        }
    }
}

/// What is left names each text exactly once.
pub proof fn first_seen_is_distinct(parts: Seq<Seq<char>>)
    ensures
        first_seen(parts).no_duplicates(),
        forall|p: Seq<char>| first_seen(parts).contains(p) <==> parts.contains(p),
        first_seen(parts).len() <= parts.len(),
    decreases parts.len(),
{
    if parts.len() > 0 {
        let rest = parts.drop_last();
        let before = first_seen(rest);
        let last = parts.last();
        first_seen_is_distinct(rest);
        assert forall|p: Seq<char>| first_seen(parts).contains(p) <==> parts.contains(p) by {
            if parts.contains(p) {
                let i = choose|i: int| 0 <= i < parts.len() && parts[i] == p;
                if i < parts.len() - 1 {
                    assert(rest[i] == p);
                    assert(rest.contains(p));
                    assert(before.contains(p));
                    let k = choose|k: int| 0 <= k < before.len() && before[k] == p;
                    assert(first_seen(parts)[k] == p);
                } else if !before.contains(p) {
                    assert(first_seen(parts)[before.len() as int] == p);
                }
            }
            if first_seen(parts).contains(p) {
                let k = choose|k: int| 0 <= k < first_seen(parts).len() && first_seen(parts)[k]
                    == p;
                if k < before.len() {
                    assert(before[k] == p);
                    assert(rest.contains(p));
                    let i = choose|i: int| 0 <= i < rest.len() && rest[i] == p;
                    assert(parts[i] == p);
                } else {
                    assert(parts[parts.len() - 1] == p);
                }
            }
        }
    }
}

/// Remove repetitions from a list.
pub fn distinct(v: &Vec<String>) -> (r: Vec<String>)
    ensures
        texts(r@) == first_seen(texts(v@)),
{
    let mut r: Vec<String> = Vec::new();
    let ghost all = texts(v@);
    let mut i: usize = 0;
    assert(texts(r@) =~= first_seen(all.take(0)));
    while i < v.len()
        invariant
            i <= v@.len(),
            all == texts(v@),
            texts(r@) == first_seen(all.take(i as int)),
        decreases v@.len() - i,
    {
        assert(all.take(i + 1).drop_last() =~= all.take(i as int));
        if !has_text(&r, v[i].as_str()) {
            let ghost before = texts(r@);
            r.push(v[i].clone());
            assert(texts(r@) =~= before.push(all[i as int]));
        }
        i = i + 1;
    }
    assert(all.take(i as int) =~= all);
    r
}

// ---------------------------------------------------------------------------
// Order
// ---------------------------------------------------------------------------

/// `a` comes before `b` in the order of their characters.
pub open spec fn text_lt(a: Seq<char>, b: Seq<char>) -> bool
    decreases a.len(),
{
    if b.len() == 0 {
        false
    } else if a.len() == 0 {
        true
    } else if a[0] != b[0] {
        (a[0] as int) < (b[0] as int)
    } else {
        text_lt(a.skip(1), b.skip(1))
    }
}

pub proof fn text_lt_asymmetric(a: Seq<char>, b: Seq<char>)
    requires
        text_lt(a, b),
    ensures
        !text_lt(b, a),
        a != b,
    decreases a.len(),
{
    if a.len() > 0 && b.len() > 0 && a[0] == b[0] {
        text_lt_asymmetric(a.skip(1), b.skip(1));
    }
}

/// No text comes before itself, and not both of two texts come before the other.
pub proof fn text_lt_asymmetric_or_equal(a: Seq<char>, b: Seq<char>)
    ensures
        !(text_lt(a, b) && text_lt(b, a)),
        a == b ==> !text_lt(a, b),
{
    if text_lt(a, b) {
        text_lt_asymmetric(a, b);
    }
}

/// Of two different texts one comes before the other.
pub proof fn text_lt_total(a: Seq<char>, b: Seq<char>)
    requires
        !text_lt(a, b),
        !text_lt(b, a),
    ensures
        a == b,
    decreases a.len(),
{
    if a.len() > 0 && b.len() > 0 {
        if a[0] == b[0] {
            text_lt_total(a.skip(1), b.skip(1));
            assert(a =~= seq![a[0]] + a.skip(1));
            assert(b =~= seq![b[0]] + b.skip(1));
        } else {
            assert(a[0] as int != b[0] as int);
        }
    } else {
        assert(a =~= b);
    }
}

pub proof fn text_lt_transitive(a: Seq<char>, b: Seq<char>, c: Seq<char>)
    requires
        text_lt(a, b),
        text_lt(b, c),
    ensures
        text_lt(a, c),
    decreases a.len(),
{
    if a.len() > 0 && a[0] == b[0] && b[0] == c[0] {
        text_lt_transitive(a.skip(1), b.skip(1), c.skip(1));
    }
}

fn code_point(c: char) -> (n: u32)
    ensures
        n == c as int,
{
    c as u32
}

pub fn comes_before(a: &str, b: &str) -> (r: bool)
    ensures
        r == text_lt(a@, b@),
{
    let x = chars_of(a);
    let y = chars_of(b);
    let mut i: usize = 0;
    assert(x@.skip(0) =~= x@);
    assert(y@.skip(0) =~= y@);
    while i < x.len() && i < y.len()
        invariant
            x@ == a@,
            y@ == b@,
            i <= x@.len(),
            i <= y@.len(),
            text_lt(x@, y@) == text_lt(x@.skip(i as int), y@.skip(i as int)),
        decreases x@.len() - i,
    {
        assert(x@.skip(i as int)[0] == x@[i as int]);
        assert(y@.skip(i as int)[0] == y@[i as int]);
        let (c, d) = (x[i], y[i]);
        if c != d {
            return code_point(c) < code_point(d);
        }
        assert(x@.skip(i as int).skip(1) =~= x@.skip(i + 1));
        assert(y@.skip(i as int).skip(1) =~= y@.skip(i + 1));
        i = i + 1;
    }
    i < y.len()
}

// ---------------------------------------------------------------------------
// Joining
// ---------------------------------------------------------------------------

pub open spec fn joined(parts: Seq<Seq<char>>, sep: Seq<char>) -> Seq<char>
    decreases parts.len(),
{
    if parts.len() == 0 {
        Seq::empty()
    } else if parts.len() == 1 {
        parts[0]
    } else {
        joined(parts.drop_last(), sep) + sep + parts.last()
    }
}

pub fn join(parts: &Vec<String>, sep: &str) -> (r: String)
    ensures
        r@ == joined(texts(parts@), sep@),
{
    let mut out = String::new();
    let ghost all = texts(parts@);
    let mut i: usize = 0;
    assert(all.take(0) =~= Seq::empty());
    while i < parts.len()
        invariant
            all == texts(parts@),
            i <= parts@.len(),
            out@ == joined(all.take(i as int), sep@),
        decreases parts@.len() - i,
    {
        assert(all.take(i + 1).drop_last() =~= all.take(i as int));
        if i > 0 {
            out.append(sep);
        } else {
            assert(out@ + all[0] =~= all[0]);
        }
        out.append(parts[i].as_str());
        i = i + 1;
    }
    assert(all.take(i as int) =~= all);
    out
}

/// The first `n` characters.
pub open spec fn first_chars(s: Seq<char>, n: int) -> Seq<char> {
    if s.len() <= n {
        s
    } else {
        s.take(n)
    }
}

pub fn head(s: &str, n: usize) -> (r: String)
    ensures
        r@ == first_chars(s@, n as int),
{
    let v = chars_of(s);
    if v.len() <= n {
        s.to_owned()
    } else {
        assert(v@.subrange(0, n as int) =~= v@.take(n as int));
        piece(&v, 0, n)
    }
}

// ---------------------------------------------------------------------------
// Case
// ---------------------------------------------------------------------------

/// What `str::to_lowercase` makes of a text.
pub uninterp spec fn lowercase(s: Seq<char>) -> Seq<char>;

/// An ASCII capital letter as the small one, any other character as it is.
pub open spec fn ascii_lower(c: char) -> char {
    if is_upper(c) {
        ((c as u32 + 32) as u32) as char
    } else {
        c
    }
}

pub open spec fn ascii_lowered(s: Seq<char>) -> Seq<char> {
    Seq::new(s.len(), |i: int| ascii_lower(s[i]))
}

/// Calls `str::to_lowercase`. The result is named by `lowercase`; of a text of ASCII
/// characters and Chinese ideographs, which have no case, it is said that each capital
/// letter becomes the small one and nothing else changes.
#[verifier::external_body]
pub(crate) fn to_lowercase(s: &str) -> (r: String)
    ensures
        r@ == lowercase(s@),
        is_plain(s@) ==> r@ == ascii_lowered(s@),
{
    s.to_lowercase()
}

/// All characters are ASCII.
pub open spec fn is_ascii(s: Seq<char>) -> bool {
    forall|i: int| 0 <= i < s.len() ==> (#[trigger] s[i]) as u32 <= 127
}

/// All characters are ASCII or ideographs of the main block, U+4E00 to U+9FFF.
pub open spec fn is_plain(s: Seq<char>) -> bool {
    forall|i: int|
        0 <= i < s.len() ==> (#[trigger] s[i]) as u32 <= 127 || 0x4e00 <= s[i] as u32 <= 0x9fff
}

/// The text in double quotes with its special characters escaped, as `Debug` formats
/// a `str`.
pub uninterp spec fn debug_quoted(s: Seq<char>) -> Seq<char>;

/// Formats a `str` through its `Debug` impl.
#[verifier::external_body]
pub(crate) fn quoted(s: &str) -> (r: String)
    ensures
        r@ == debug_quoted(s@),
{
    format!("{s:?}")
}

/// Equal up to the case of ASCII letters.
pub fn same_ignoring_case(a: &str, b: &str) -> (r: bool)
    ensures
        r == (ascii_lowered(a@) == ascii_lowered(b@)),
{
    same(to_ascii_lower(a).as_str(), to_ascii_lower(b).as_str())
}

fn lower_of(c: char) -> (r: char)
    ensures
        r == ascii_lower(c),
{
    let n: u32 = c as u32;
    if 65 <= n && n <= 90 {
        ((n + 32) as u8) as char
    } else {
        c
    }
}

pub fn to_ascii_lower(s: &str) -> (r: String)
    ensures
        r@ == ascii_lowered(s@),
{
    let v = chars_of(s);
    let mut out = String::new();
    let mut i: usize = 0;
    while i < v.len()
        invariant
            i <= v@.len(),
            out@ == ascii_lowered(v@).take(i as int),
        decreases v@.len() - i,
    {
        out.push(lower_of(v[i]));
        i = i + 1;
        assert(ascii_lowered(v@).take(i as int) =~= ascii_lowered(v@).take(i - 1).push(
            ascii_lowered(v@)[i - 1],
        ));
    }
    assert(ascii_lowered(v@).take(i as int) =~= ascii_lowered(s@));
    out
}

// ---------------------------------------------------------------------------
// Numbers
// ---------------------------------------------------------------------------

pub open spec fn digit(n: int) -> char {
    ((48 + n) as u32) as char
}

/// The decimal digits of a number.
pub open spec fn decimal(n: nat) -> Seq<char>
    decreases n,
{
    if n < 10 {
        seq![digit(n as int)]
    } else {
        decimal(n / 10).push(digit((n % 10) as int))
    }
}

/// The decimal form of an integer, with its sign where it is negative.
pub open spec fn signed_decimal(n: int) -> Seq<char> {
    if n < 0 {
        "-"@ + decimal((-n) as nat)
    } else {
        decimal(n as nat)
    }
}

pub fn signed_decimal_of(n: i64) -> (s: String)
    ensures
        s@ == signed_decimal(n as int),
{
    if n < 0 {
        let mut s = "-".to_owned();
        s.append(decimal_of((-(n as i128)) as u64).as_str());
        s
    } else {
        decimal_of(n as u64)
    }
}

fn digit_of(n: u64) -> (c: char)
    requires
        n < 10,
    ensures
        c == digit(n as int),
{
    match n {
        0 => '0',
        1 => '1',
        2 => '2',
        3 => '3',
        4 => '4',
        5 => '5',
        6 => '6',
        7 => '7',
        8 => '8',
        _ => '9',
    }
}

pub fn decimal_of(n: u64) -> (s: String)
    ensures
        s@ == decimal(n as nat),
    decreases n,
{
    if n < 10 {
        let mut s = String::new();
        s.push(digit_of(n));
        assert(s@ =~= seq![digit(n as int)]);
        s
    } else {
        let mut s = decimal_of(n / 10);
        s.push(digit_of(n % 10));
        s
    }
}

/// A hexadecimal digit.
pub open spec fn hex_digit(n: int) -> char {
    if n < 10 {
        digit(n)
    } else {
        ((87 + n) as u32) as char
    }
}

/// The last `len` hexadecimal digits of a number.
pub open spec fn hex(n: int, len: nat) -> Seq<char>
    decreases len,
{
    if len == 0 {
        Seq::empty()
    } else {
        hex(n / 16, (len - 1) as nat).push(hex_digit(n % 16))
    }
}

fn hex_digit_of(n: u64) -> (c: char)
    requires
        n < 16,
    ensures
        c == hex_digit(n as int),
{
    match n {
        10 => 'a',
        11 => 'b',
        12 => 'c',
        13 => 'd',
        14 => 'e',
        15 => 'f',
        _ => digit_of(n),
    }
}

pub fn hex_of(n: u64, len: usize) -> (s: String)
    ensures
        s@ == hex(n as int, len as nat),
    decreases len,
{
    if len == 0 {
        String::new()
    } else {
        let mut s = hex_of(n / 16, len - 1);
        s.push(hex_digit_of(n % 16));
        s
    }
}

// ---------------------------------------------------------------------------
// Lists
// ---------------------------------------------------------------------------

/// The first few of a list.
pub open spec fn at_most<A>(s: Seq<A>, n: int) -> Seq<A> {
    if s.len() <= n {
        s
    } else {
        s.take(n)
    }
}

/// Adding to a list that keeps the first few.
pub proof fn at_most_push<A>(s: Seq<A>, x: A, n: int)
    requires
        0 <= n,
    ensures
        at_most(s.push(x), n) == if at_most(s, n).len() < n {
            at_most(s, n).push(x)
        } else {
            at_most(s, n)
        },
{
    if s.len() >= n {
        assert(s.push(x).take(n) =~= s.take(n));
        assert(s.len() == n ==> s.take(n) =~= s);
    }
}

/// Where a text first stands in a list.
pub open spec fn position(list: Seq<Seq<char>>, s: Seq<char>) -> Option<int>
    decreases list.len(),
{
    if list.len() == 0 {
        None
    } else if list[0] == s {
        Some(0)
    } else {
        match position(list.skip(1), s) {
            Some(i) => Some(i + 1),
            None => None,
        }
    }
}

/// A position is that of the first occurrence.
pub proof fn position_is_first(list: Seq<Seq<char>>, s: Seq<char>)
    ensures
        match position(list, s) {
            Some(p) => 0 <= p < list.len() && list[p] == s && forall|k: int|
                0 <= k < p ==> #[trigger] list[k] != s,
            None => forall|k: int| 0 <= k < list.len() ==> #[trigger] list[k] != s,
        },
    decreases list.len(),
{
    if list.len() > 0 && list[0] != s {
        position_is_first(list.skip(1), s);
        assert forall|k: int|
            0 <= k < list.len() && (position(list, s) matches Some(p) ==> k < p) implies #[trigger] list[k]
            != s by {
            if k > 0 {
                assert(list.skip(1)[k - 1] == list[k]);
            }
        }
    }
}

/// Find a text in a list.
pub fn find_text(v: &Vec<String>, s: &str) -> (r: Option<usize>)
    ensures
        match r {
            Some(i) => position(texts(v@), s@) == Some(i as int) && i < v@.len(),
            None => position(texts(v@), s@) is None,
        },
{
    let ghost all = texts(v@);
    let mut i: usize = 0;
    proof {
        position_is_first(all, s@);
    }
    while i < v.len()
        invariant
            i <= v@.len(),
            all == texts(v@),
            forall|k: int| 0 <= k < i ==> #[trigger] all[k] != s@,
        decreases v@.len() - i,
    {
        assert(all[i as int] == v@[i as int]@);
        if same(v[i].as_str(), s) {
            proof {
                position_is_first(all, s@);
            }
            return Some(i);
        }
        i = i + 1;
    }
    None
}

// ---------------------------------------------------------------------------
// Reading integers
// ---------------------------------------------------------------------------

pub open spec fn all_digits(s: Seq<char>) -> bool {
    forall|i: int| 0 <= i < s.len() ==> is_digit(#[trigger] s[i])
}

/// The number that decimal digits stand for.
pub open spec fn number_of(s: Seq<char>) -> int
    decreases s.len(),
{
    if s.len() == 0 {
        0
    } else {
        number_of(s.drop_last()) * 10 + (s.last() as int - '0' as int)
    }
}

/// A text starts with a sign.
pub open spec fn is_signed(s: Seq<char>) -> bool {
    s.len() > 0 && (s[0] == '-' || s[0] == '+')
}

/// The integer that a text stands for: digits, with a sign before them or not.
pub open spec fn integer_of(s: Seq<char>) -> Option<int> {
    let body = if is_signed(s) {
        s.skip(1)
    } else {
        s
    };
    if body.len() == 0 || !all_digits(body) {
        None
    } else if s[0] == '-' {
        Some(-number_of(body))
    } else {
        Some(number_of(body))
    }
}

/// The integer that a text stands for, where it fits the machine.
pub open spec fn machine_integer(s: Seq<char>) -> Option<int> {
    match integer_of(s) {
        Some(n) => if i64::MIN <= n <= i64::MAX {
            Some(n)
        } else {
            None
        },
        None => None,
    }
}

fn digit_value(c: char) -> (r: i128)
    requires
        is_digit(c),
    ensures
        r == c as int - '0' as int,
        0 <= r <= 9,
{
    (c as u32) as i128 - 48
}

/// Read a decimal integer.
pub fn parse_integer(s: &str) -> (r: Option<i64>)
    ensures
        match r {
            Some(n) => machine_integer(s@) == Some(n as int),
            None => machine_integer(s@) is None,
        },
{
    let v = chars_of(s);
    let len: usize = v.len();
    let start: usize = if len > 0 && (v[0] == '-' || v[0] == '+') {
        1
    } else {
        0
    };
    let ghost body = v@.skip(start as int);
    assert(start == 0 ==> body =~= v@);
    if start == len {
        return None;
    }
    let limit: i128 = 9_223_372_036_854_775_808;
    let mut value: i128 = 0;
    let mut i: usize = start;
    assert(body.take(0) =~= Seq::empty());
    while i < len
        invariant
            start <= i <= len,
            len == v@.len(),
            v@ == s@,
            start == (if is_signed(s@) {
                1int
            } else {
                0
            }),
            body == v@.skip(start as int),
            limit == 9_223_372_036_854_775_808,
            forall|k: int| 0 <= k < i - start ==> is_digit(#[trigger] body[k]),
            0 <= value <= limit + 1,
            value <= limit ==> value == number_of(body.take(i - start)),
            value > limit ==> number_of(body.take(i - start)) > limit,
        decreases len - i,
    {
        let c = v[i];
        assert(body[i - start] == c);
        if !digit_char(c) {
            assert(!all_digits(body));
            assert(start == 0 ==> body =~= s@);
            return None;
        }
        assert(body.take(i + 1 - start).drop_last() =~= body.take(i - start));
        let next = value * 10 + digit_value(c);
        value = if value > limit || next > limit {
            limit + 1
        } else {
            next
        };
        i = i + 1;
    }
    assert(body.take(i - start) =~= body);
    assert(all_digits(body));
    if v[0] == '-' {
        if value > limit {
            None
        } else {
            Some((0 - value) as i64)
        }
    } else if value >= limit {
        None
    } else {
        Some(value as i64)
    }
}

// ---------------------------------------------------------------------------
// Counts
// ---------------------------------------------------------------------------

/// A count of items, held at the largest value that the machine can represent.
pub open spec fn tallied(n: nat) -> nat {
    if n > usize::MAX {
        usize::MAX as nat
    } else {
        n
    }
}

pub fn tally(a: usize, b: usize) -> (r: usize)
    ensures
        r == tallied(a as nat + b as nat),
{
    if a > usize::MAX - b {
        usize::MAX
    } else {
        a + b
    }
}

// ---------------------------------------------------------------------------
// Laws
// ---------------------------------------------------------------------------

/// Trimming takes away white space at both ends and nothing else: what is left is the part
/// of the text between two places, outside of which all is white space, and it neither
/// starts nor ends with any.
pub proof fn trimming_takes_white_space(s: Seq<char>) -> (r: (int, int))
    ensures
        0 <= r.0 <= r.1 <= s.len(),
        trimmed(s) == s.subrange(r.0, r.1),
        forall|i: int| 0 <= i < s.len() && !(r.0 <= i < r.1) ==> is_space(#[trigger] s[i]),
        r.0 < r.1 ==> !is_space(s[r.0]) && !is_space(s[r.1 - 1]),
{
    let a = trim_start_place(s);
    let t = trim_start(s);
    let n = trim_end_place(t);
    assert(trimmed(s) =~= s.subrange(a, a + n));
    assert forall|i: int| 0 <= i < s.len() && !(a <= i < a + n) implies is_space(
        #[trigger] s[i],
    ) by {
        if i >= a + n {
            assert(t[i - a] == s[i]);
        }
    }
    if n > 0 {
        assert(t[0] == s[a]);
        assert(t[n - 1] == s[a + n - 1]);
    }
    (a, a + n)
}

proof fn trim_start_place(s: Seq<char>) -> (a: int)
    ensures
        0 <= a <= s.len(),
        trim_start(s) == s.skip(a),
        forall|i: int| 0 <= i < a ==> is_space(#[trigger] s[i]),
        a < s.len() ==> !is_space(s[a]),
    decreases s.len(),
{
    if s.len() > 0 && is_space(s[0]) {
        let b = trim_start_place(s.skip(1));
        assert(s.skip(1).skip(b) =~= s.skip(b + 1));
        assert forall|i: int| 0 <= i < b + 1 implies is_space(#[trigger] s[i]) by {
            if i > 0 {
                assert(s.skip(1)[i - 1] == s[i]);
            }
        }
        b + 1
    } else {
        assert(s.skip(0) =~= s);
        0
    }
}

proof fn trim_end_place(s: Seq<char>) -> (n: int)
    ensures
        0 <= n <= s.len(),
        trim_end(s) == s.take(n),
        forall|i: int| n <= i < s.len() ==> is_space(#[trigger] s[i]),
        n > 0 ==> !is_space(s[n - 1]),
    decreases s.len(),
{
    if s.len() > 0 && is_space(s.last()) {
        let n = trim_end_place(s.drop_last());
        assert(s.drop_last().take(n) =~= s.take(n));
        assert forall|i: int| n <= i < s.len() implies is_space(#[trigger] s[i]) by {
            if i < s.len() - 1 {
                assert(s.drop_last()[i] == s[i]);
            }
        }
        n
    } else {
        assert(s.take(s.len() as int) =~= s);
        s.len() as int
    }
}

/// Blanks, tabs and line ends are white space; what can be seen of ASCII is not.
pub proof fn ascii_white_space(c: char)
    ensures
        is_space(' ') && is_space('\t') && is_space('\n') && is_space('\r'),
        33 <= c as u32 <= 126 ==> !is_space(c),
        0x4e00 <= c as u32 <= 0x9fff ==> !is_space(c),
{
}

/// White space parts words: a text without it is one word, an empty one has none, and the
/// words on both sides of a white space follow one another.
pub proof fn words_stand_between_white_space(a: Seq<char>, c: char, b: Seq<char>)
    requires
        is_space(c),
    ensures
        words(a + seq![c] + b) == words(a) + words(b),
        words(Seq::<char>::empty()) == Seq::<Seq<char>>::empty(),
        a.len() > 0 && (forall|i: int| 0 <= i < a.len() ==> !is_space(#[trigger] a[i])) ==> words(
            a,
        ) == seq![a],
{
    reveal_with_fuel(space_parts, 2);
    reveal_with_fuel(non_empty, 3);
    space_parts_behind(a, c, b);
    non_empty_of_both(space_parts(a), space_parts(b));
    assert(words(Seq::<char>::empty()) =~= Seq::<Seq<char>>::empty()) by {
        assert(seq![Seq::<char>::empty()].drop_last() =~= Seq::<Seq<char>>::empty());
    }
    if a.len() > 0 && (forall|i: int| 0 <= i < a.len() ==> !is_space(#[trigger] a[i])) {
        space_parts_of_one(a);
        assert(seq![a].drop_last() =~= Seq::<Seq<char>>::empty());
        assert(words(a) =~= seq![a]);
    }
}

proof fn space_parts_not_empty(s: Seq<char>)
    ensures
        space_parts(s).len() >= 1,
    decreases s.len(),
{
    if s.len() > 0 {
        space_parts_not_empty(s.drop_last());
    }
}

proof fn space_parts_of_one(s: Seq<char>)
    requires
        forall|i: int| 0 <= i < s.len() ==> !is_space(#[trigger] s[i]),
    ensures
        space_parts(s) == seq![s],
    decreases s.len(),
{
    if s.len() > 0 {
        let rest = s.drop_last();
        assert forall|i: int| 0 <= i < rest.len() implies !is_space(#[trigger] rest[i]) by {
            assert(rest[i] == s[i]);
        }
        space_parts_of_one(rest);
        assert(!is_space(s[s.len() - 1]));
        assert(rest.push(s.last()) =~= s);
        assert(space_parts(s) =~= seq![s]);
    } else {
        assert(s =~= Seq::empty());
    }
}

proof fn space_parts_behind(a: Seq<char>, c: char, b: Seq<char>)
    requires
        is_space(c),
    ensures
        space_parts(a + seq![c] + b) == space_parts(a) + space_parts(b),
    decreases b.len(),
{
    let all = a + seq![c] + b;
    if b.len() == 0 {
        assert(all.drop_last() =~= a);
        assert(all.last() == c);
        assert(space_parts(all) =~= space_parts(a) + space_parts(b));
    } else {
        space_parts_behind(a, c, b.drop_last());
        space_parts_not_empty(b.drop_last());
        assert(all.drop_last() =~= a + seq![c] + b.drop_last());
        assert(all.last() == b.last());
        assert(space_parts(all) =~= space_parts(a) + space_parts(b));
    }
}

proof fn non_empty_of_both(a: Seq<Seq<char>>, b: Seq<Seq<char>>)
    ensures
        non_empty(a + b) == non_empty(a) + non_empty(b),
    decreases b.len(),
{
    if b.len() == 0 {
        assert(a + b =~= a);
        assert(non_empty(a) + non_empty(b) =~= non_empty(a));
    } else {
        non_empty_of_both(a, b.drop_last());
        assert((a + b).drop_last() =~= a + b.drop_last());
        assert(non_empty(a + b) =~= non_empty(a) + non_empty(b));
    }
}

/// A line ends at a line feed, with or without a carriage return before it; the last one
/// may do without, and a text that is empty has no line.
pub proof fn lines_end_at_line_feeds(line: Seq<char>, rest: Seq<char>)
    requires
        !line.contains('\n'),
    ensures
        lines(line + seq!['\n'] + rest) == seq![
            if line.len() > 0 && line.last() == '\r' {
                line.drop_last()
            } else {
                line
            },
        ] + lines(rest),
        lines(Seq::<char>::empty()) == Seq::<Seq<char>>::empty(),
        line.len() > 0 ==> lines(line) == seq![line],
{
    let a = line + seq!['\n'];
    let all = a + rest;
    let parts = split(rest, '\n');
    split_without_separator(line, '\n');
    assert(a.drop_last() =~= line);
    assert(split(a, '\n') == split(line, '\n').push(Seq::empty()));
    split_behind_separator(a, rest, '\n');
    split_is_not_empty(rest, '\n');
    assert(split(a, '\n').drop_last() =~= seq![line]);
    assert(split(all, '\n') == seq![line] + parts);
    assert((seq![line] + parts).drop_last() =~= seq![line] + parts.drop_last());
    assert(lines(all) =~= seq![without_cr(line)] + lines(rest));
    assert(split(Seq::<char>::empty(), '\n') =~= seq![Seq::<char>::empty()]);
    assert(lines(Seq::<char>::empty()) =~= Seq::<Seq<char>>::empty());
    if line.len() > 0 {
        assert(lines(line) =~= seq![line]);
    }
}

/// Replacing goes from one occurrence to the next: what comes before the first is kept,
/// and where there is none nothing changes.
pub proof fn replacing_goes_from_left_to_right(
    s: Seq<char>,
    pat: Seq<char>,
    to: Seq<char>,
    at: int,
)
    requires
        pat.len() > 0,
        0 <= at <= s.len(),
        forall|j: int| 0 <= j < at ==> !#[trigger] occurs_at(s, pat, j),
        at < s.len() ==> occurs_at(s, pat, at),
    ensures
        at == s.len() ==> replaced(s, pat, to) == s,
        at < s.len() ==> replaced(s, pat, to) == s.take(at) + to + replaced(
            s.skip(at + pat.len()),
            pat,
            to,
        ),
    decreases s.len(),
{
    if s.len() == 0 {
    } else if at == 0 {
        assert(s.take(0) + to =~= to);
        assert(starts_with(s, pat));
    } else {
        let t = s.skip(1);
        assert(!occurs_at(s, pat, 0));
        assert forall|j: int| 0 <= j < at - 1 implies !#[trigger] occurs_at(t, pat, j) by {
            if occurs_at(t, pat, j) {
                assert(t.subrange(j, j + pat.len()) =~= s.subrange(j + 1, j + 1 + pat.len()));
                assert(occurs_at(s, pat, j + 1));
            }
        }
        if at < s.len() {
            assert(t.subrange(at - 1, at - 1 + pat.len()) =~= s.subrange(at, at + pat.len()));
        }
        replacing_goes_from_left_to_right(t, pat, to, at - 1);
        if at < s.len() {
            assert(t.skip(at - 1 + pat.len()) =~= s.skip(at + pat.len()));
            assert(seq![s[0]] + (t.take(at - 1) + to + replaced(
                s.skip(at + pat.len()),
                pat,
                to,
            )) =~= s.take(at) + to + replaced(s.skip(at + pat.len()), pat, to));
        } else {
            assert(seq![s[0]] + t =~= s);
        }
    }
}

/// Without repetitions each text stands where it was first seen: what is left comes from
/// ascending places, and these are the places before which the text does not occur.
pub proof fn first_seen_keeps_the_first(parts: Seq<Seq<char>>) -> (at: Seq<int>)
    ensures
        at.len() == first_seen(parts).len(),
        forall|i: int|
            0 <= i < at.len() ==> 0 <= #[trigger] at[i] < parts.len() && first_seen(parts)[i]
                == parts[at[i]],
        forall|i: int, j: int| 0 <= i < j < at.len() ==> #[trigger] at[i] < #[trigger] at[j],
        forall|k: int|
            0 <= k < parts.len() ==> (#[trigger] at.contains(k) <==> !parts.take(k).contains(
                parts[k],
            )),
    decreases parts.len(),
{
    if parts.len() == 0 {
        Seq::empty()
    } else {
        let before = parts.drop_last();
        let n = parts.len() - 1;
        let old_at = first_seen_keeps_the_first(before);
        first_seen_is_distinct(before);
        let known = first_seen(before).contains(parts.last());
        let at = if known {
            old_at
        } else {
            old_at.push(n)
        };
        assert(parts.take(n) =~= before);
        assert forall|k: int| 0 <= k < parts.len() implies (#[trigger] at.contains(k)
            <==> !parts.take(k).contains(parts[k])) by {
            if k < n {
                assert(before.take(k) =~= parts.take(k));
                assert(old_at.contains(k) <==> !before.take(k).contains(before[k]));
                if old_at.contains(k) {
                    let m = choose|m: int| 0 <= m < old_at.len() && old_at[m] == k;
                    assert(at[m] == k);
                }
                if at.contains(k) {
                    let m = choose|m: int| 0 <= m < at.len() && at[m] == k;
                    assert(old_at[m] == k);
                }
            } else if known {
                if at.contains(n) {
                    let m = choose|m: int| 0 <= m < at.len() && at[m] == n;
                    assert(old_at[m] < before.len());
                }
            } else {
                assert(at[old_at.len() as int] == n);
            }
        }
        at
    }
}

/// One text comes before another where it is the start of it, or is the lesser at the
/// first place where they differ.
pub proof fn order_goes_by_the_first_difference(a: Seq<char>, b: Seq<char>, n: int)
    requires
        0 <= n <= a.len(),
        n <= b.len(),
        a.take(n) == b.take(n),
        n < a.len() && n < b.len() ==> a[n] != b[n],
    ensures
        text_lt(a, b) <==> n < b.len() && (n == a.len() || (a[n] as int) < (b[n] as int)),
    decreases n,
{
    if n > 0 {
        assert(a.take(n)[0] == a[0] && b.take(n)[0] == b[0]);
        if n < a.len() && n < b.len() {
            assert(a.skip(1)[n - 1] == a[n] && b.skip(1)[n - 1] == b[n]);
        }
        assert(a.skip(1).take(n - 1) =~= a.take(n).skip(1));
        assert(b.skip(1).take(n - 1) =~= b.take(n).skip(1));
        order_goes_by_the_first_difference(a.skip(1), b.skip(1), n - 1);
    }
}

/// Joining puts the separator between any two parts and nowhere else.
pub proof fn joining_parts(a: Seq<Seq<char>>, b: Seq<Seq<char>>, sep: Seq<char>, x: Seq<char>)
    ensures
        joined(Seq::<Seq<char>>::empty(), sep) == Seq::<char>::empty(),
        joined(seq![x], sep) == x,
        a.len() > 0 && b.len() > 0 ==> joined(a + b, sep) == joined(a, sep) + sep + joined(b, sep),
    decreases b.len(),
{
    if a.len() > 0 && b.len() > 0 {
        let all = a + b;
        assert(all.drop_last() =~= a + b.drop_last());
        assert(all.last() == b.last());
        if b.len() == 1 {
            assert(all.drop_last() =~= a);
        } else {
            joining_parts(a, b.drop_last(), sep, x);
            assert(joined(all, sep) =~= joined(a, sep) + sep + joined(b, sep));
        }
    }
}

/// The decimal form of a number is made of digits, does not start with a zero unless it is
/// one, and reads back as the number.
pub proof fn decimals_read_back(n: nat)
    ensures
        all_digits(decimal(n)),
        decimal(n).len() > 0,
        n > 0 ==> decimal(n)[0] != '0',
        number_of(decimal(n)) == n,
    decreases n,
{
    reveal_with_fuel(number_of, 2);
    if n >= 10 {
        decimals_read_back(n / 10);
        let d = decimal(n / 10);
        assert(decimal(n).drop_last() =~= d);
        assert(decimal(n)[0] == d[0]);
        assert forall|i: int| 0 <= i < decimal(n).len() implies is_digit(
            #[trigger] decimal(n)[i],
        ) by {
            if i < d.len() {
                assert(is_digit(d[i]));
            }
        }
    } else {
        assert(decimal(n).drop_last() =~= Seq::<char>::empty());
    }
}

/// Every further digit counts for itself and makes the ones before it ten times as much.
pub proof fn digits_have_place_value(s: Seq<char>, c: char)
    ensures
        number_of(Seq::<char>::empty()) == 0,
        number_of(s.push(c)) == 10 * number_of(s) + (c as int - 48),
{
    assert(s.push(c).drop_last() =~= s);
}

/// An integer is read back from its decimal form.
pub proof fn integers_read_back(n: int)
    requires
        i64::MIN <= n <= i64::MAX,
    ensures
        machine_integer(signed_decimal(n)) == Some(n),
{
    reveal_strlit("-");
    if n < 0 {
        let d = decimal((-n) as nat);
        decimals_read_back((-n) as nat);
        let s = "-"@ + d;
        assert(s[0] == '-');
        assert(s.skip(1) =~= d);
    } else {
        decimals_read_back(n as nat);
        let d = decimal(n as nat);
        assert(is_digit(d[0]));
    }
}

/// A hexadecimal form has as many digits as it is asked for; the last one stands for the
/// remainder by 16, and those before it for the quotient.
pub proof fn hexadecimal_digits(n: int, len: nat)
    requires
        0 <= n,
    ensures
        hex(n, len).len() == len,
        len > 0 ==> hex(n, len).last() == "0123456789abcdef"@[n % 16] && hex(n, len).drop_last()
            == hex(n / 16, (len - 1) as nat),
    decreases len,
{
    reveal_strlit("0123456789abcdef");
    if len > 0 {
        hexadecimal_digits(n / 16, (len - 1) as nat);
        assert(hex(n, len).drop_last() =~= hex(n / 16, (len - 1) as nat));
    }
}

/// Lower case changes ASCII capitals to their small letters, one for one, and nothing else.
pub proof fn lowering_keeps_the_rest(s: Seq<char>, i: int)
    requires
        0 <= i < s.len(),
    ensures
        ascii_lowered(s).len() == s.len(),
        65 <= s[i] as u32 <= 90 ==> ascii_lowered(s)[i] as u32 == s[i] as u32 + 32,
        !(65 <= s[i] as u32 <= 90) ==> ascii_lowered(s)[i] == s[i],
{
}

/// The first few of a list are its start: all of it where it is short enough, else just as
/// many as are asked for.
pub proof fn the_first_few<A>(s: Seq<A>, n: int)
    requires
        0 <= n,
    ensures
        at_most(s, n).len() == if s.len() <= n {
            s.len() as int
        } else {
            n
        },
        at_most(s, n) == s.take(at_most(s, n).len() as int),
{
    assert(s.take(s.len() as int) =~= s);
}

/// A cut text is the start of the text, and whole where it is short enough; counts are
/// exact as long as the machine can represent them.
pub proof fn cuts_keep_the_start(s: Seq<char>, n: int, count: nat)
    requires
        0 <= n,
    ensures
        first_chars(s, n).len() == if s.len() <= n {
            s.len() as int
        } else {
            n
        },
        first_chars(s, n) == s.take(first_chars(s, n).len() as int),
        count <= usize::MAX ==> tallied(count) == count,
        count > usize::MAX ==> tallied(count) == usize::MAX,
{
    assert(s.take(s.len() as int) =~= s);
}

/// The view of a list of strings reads each of them, and an optional string reads as
/// itself.
pub proof fn texts_read_each_string(v: Seq<String>, s: String)
    ensures
        texts(v).len() == v.len(),
        forall|i: int| 0 <= i < v.len() ==> #[trigger] texts(v)[i] == v[i]@,
        opt_text(Some(s)) == Some(s@),
        opt_text(None) is None,
{
}

/// A text starts with, ends with or holds another one where it is put together so.
pub proof fn texts_hold_their_parts(a: Seq<char>, pat: Seq<char>, b: Seq<char>)
    ensures
        starts_with(pat + b, pat),
        ends_with(a + pat, pat),
        contains(a + pat + b, pat),
        starts_with(a, pat) ==> a.len() >= pat.len() && a.take(pat.len() as int) == pat,
        after_prefix(pat + b, pat) == Some(b),
{
    assert((pat + b).subrange(0, pat.len() as int) =~= pat);
    assert((a + pat).subrange(a.len() as int, (a + pat).len() as int) =~= pat);
    assert((a + pat + b).subrange(a.len() as int, a.len() as int + pat.len()) =~= pat);
    assert(occurs_at(a + pat + b, pat, a.len() as int));
    assert((pat + b).skip(pat.len() as int) =~= b);
    if starts_with(a, pat) {
        assert(a.subrange(0, pat.len() as int) =~= a.take(pat.len() as int));
    }
}

/// What a text holds stands between two parts of it.
pub proof fn held_parts_stand_somewhere(s: Seq<char>, pat: Seq<char>) -> (r: (Seq<char>, Seq<char>))
    requires
        contains(s, pat),
    ensures
        s == r.0 + pat + r.1,
{
    let i = choose|i: int| #[trigger] occurs_at(s, pat, i);
    let a = s.take(i);
    let b = s.skip(i + pat.len());
    assert(s =~= a + s.subrange(i, i + pat.len()) + b);
    (a, b)
}

} // verus!
