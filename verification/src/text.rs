//! Text helpers: contracts for the string functions the library relies on, and
//! verified searching and trimming over character vectors.

use vstd::prelude::*;
use vstd::string::*;

verus! {

/// `needle` occurs in `hay` starting at position `at`.
pub open spec fn occurs_at(hay: Seq<char>, needle: Seq<char>, at: int) -> bool {
    &&& 0 <= at
    &&& at + needle.len() <= hay.len()
    &&& hay.subrange(at, at + needle.len()) == needle
}

/// `needle` occurs somewhere in `hay`.
pub open spec fn is_infix(needle: Seq<char>, hay: Seq<char>) -> bool {
    exists|at: int| occurs_at(hay, needle, at)
}

/// `hay` begins with `prefix`.
pub open spec fn is_prefix(prefix: Seq<char>, hay: Seq<char>) -> bool {
    occurs_at(hay, prefix, 0)
}

/// The lowercase form of a text, as `str::to_lowercase` computes it.
pub uninterp spec fn lowercase(s: Seq<char>) -> Seq<char>;

/// Whether a character is whitespace, as `char::is_whitespace` decides it.
pub uninterp spec fn is_space(c: char) -> bool;

/// The views of a list of strings.
pub open spec fn texts(v: Seq<String>) -> Seq<Seq<char>> {
    v.map_values(|s: String| s@)
}

/// The view of an optional string.
pub open spec fn opt_text(o: Option<String>) -> Option<Seq<char>> {
    match o {
        Some(s) => Some(s@),
        None => None,
    }
}

/// `str::to_lowercase`: the result is the lowercase form of the argument.
#[verifier::external_body]
pub(crate) fn to_lower(s: &str) -> (out: String)
    ensures
        out@ == lowercase(s@),
{
    s.to_lowercase()
}

/// `char::is_whitespace`.
#[verifier::external_body]
pub(crate) fn is_whitespace(c: char) -> (r: bool)
    ensures
        r == is_space(c),
{
    c.is_whitespace()
}

/// `String::from_iter` over characters: the string made of `chars`, in order.
#[verifier::external_body]
pub(crate) fn text_of(chars: &Vec<char>) -> (out: String)
    ensures
        out@ == chars@,
{
    chars.iter().collect()
}

/// The characters of `s`, in order.
pub fn chars_of(s: &str) -> (out: Vec<char>)
    ensures
        out@ == s@,
{
    let mut out: Vec<char> = Vec::new();
    for c in it: s.chars()
        invariant
            out@ == it.seq().take(it.index() as int),
            it.seq() == s@,
    {
        out.push(c);
    }
    out
}

/// Whether two texts hold the same characters.
pub fn same_text(a: &str, b: &str) -> (r: bool)
    ensures
        r == (a@ == b@),
{
    let x = a.to_owned();
    let y = b.to_owned();
    x == y
}

/// Whether two optional texts are both absent or hold the same characters.
pub fn same_opt_text(a: &Option<String>, b: &Option<String>) -> (r: bool)
    ensures
        r == (opt_text(*a) == opt_text(*b)),
{
    match a {
        Some(x) => match b {
            Some(y) => *x == *y,
            None => false,
        },
        None => b.is_none(),
    }
}

/// Whether `list` holds a string with the characters of `item`.
pub fn list_has(list: &Vec<String>, item: &str) -> (r: bool)
    ensures
        r == texts(list@).contains(item@),
{
    let mut i: usize = 0;
    while i < list.len()
        invariant
            i <= list.len(),
            forall|j: int| 0 <= j < i ==> texts(list@)[j] != item@,
        decreases list.len() - i,
    {
        if same_text(list[i].as_str(), item) {
            assert(texts(list@)[i as int] == item@);
            return true;
        }
        i += 1;
    }
    false
}

/// A copy of a list of strings.
pub fn copy_texts(list: &Vec<String>) -> (out: Vec<String>)
    ensures
        out@ == list@,
{
    let mut out: Vec<String> = Vec::new();
    let mut i: usize = 0;
    while i < list.len()
        invariant
            i <= list.len(),
            out@ == list@.take(i as int),
        decreases list.len() - i,
    {
        out.push(list[i].clone());
        i += 1;
    }
    out
}

/// A copy of an optional string.
pub fn copy_opt_text(o: &Option<String>) -> (out: Option<String>)
    ensures
        out == *o,
{
    match o {
        Some(s) => Some(s.clone()),
        None => None,
    }
}

/// Whether `needle` occurs in `hay` at position `at`.
pub fn matches_at(hay: &Vec<char>, needle: &Vec<char>, at: usize) -> (r: bool)
    ensures
        r == occurs_at(hay@, needle@, at as int),
{
    if needle.len() > hay.len() || at > hay.len() - needle.len() {
        return false;
    }
    let mut k: usize = 0;
    while k < needle.len()
        invariant
            k <= needle.len(),
            at + needle.len() <= hay.len(),
            forall|j: int| 0 <= j < k ==> hay@[at + j] == needle@[j],
        decreases needle.len() - k,
    {
        if hay[at + k] != needle[k] {
            assert(hay@.subrange(at as int, at + needle.len())[k as int] == hay@[at + k]);
            return false;
        }
        k += 1;
    }
    assert(hay@.subrange(at as int, at + needle.len()) =~= needle@);
    true
}

/// The first position at or after `from` where `needle` occurs in `hay`.
pub open spec fn first_at(hay: Seq<char>, needle: Seq<char>, from: int, at: int) -> bool {
    &&& from <= at
    &&& occurs_at(hay, needle, at)
    &&& forall|j: int| from <= j < at ==> !occurs_at(hay, needle, j)
}

/// Finds the first occurrence of `needle` in `hay` at or after `from`.
pub fn find_from(hay: &Vec<char>, needle: &Vec<char>, from: usize) -> (r: Option<usize>)
    ensures
        match r {
            Some(at) => first_at(hay@, needle@, from as int, at as int),
            None => forall|j: int| from <= j ==> !occurs_at(hay@, needle@, j),
        },
{
    if needle.len() > hay.len() {
        return None;
    }
    let last: usize = hay.len() - needle.len();
    let mut at: usize = from;
    while at <= last
        invariant
            from <= at,
            last == hay.len() - needle.len(),
            forall|j: int| from <= j < at ==> !occurs_at(hay@, needle@, j),
        decreases last + 1 - at,
    {
        if matches_at(hay, needle, at) {
            return Some(at);
        }
        if at == last {
            return None;
        }
        at += 1;
    }
    None
}

/// The words of `s` from position `from` on, where `cur` holds the
/// characters of the word that position `from` continues.
pub open spec fn words_from(s: Seq<char>, from: int, cur: Seq<char>) -> Seq<Seq<char>>
    decreases s.len() - from,
{
    if from < 0 || from >= s.len() {
        if cur.len() > 0 {
            seq![cur]
        } else {
            Seq::empty()
        }
    } else if is_space(s[from]) {
        if cur.len() > 0 {
            seq![cur] + words_from(s, from + 1, Seq::empty())
        } else {
            words_from(s, from + 1, Seq::empty())
        }
    } else {
        words_from(s, from + 1, cur.push(s[from]))
    }
}

/// The words of a text: its maximal runs of characters that are not
/// whitespace, in order.
pub open spec fn words_of(s: Seq<char>) -> Seq<Seq<char>> {
    words_from(s, 0, Seq::empty())
}

/// No word is empty, and no word holds whitespace.
pub proof fn lemma_words_are_solid(s: Seq<char>, from: int, cur: Seq<char>, k: int)
    requires
        0 <= from,
        forall|j: int| 0 <= j < cur.len() ==> !is_space(cur[j]),
        0 <= k < words_from(s, from, cur).len(),
    ensures
        words_from(s, from, cur)[k].len() > 0,
        forall|j: int|
            0 <= j < words_from(s, from, cur)[k].len() ==> !is_space(
                words_from(s, from, cur)[k][j],
            ),
    decreases s.len() - from,
{
    if from >= s.len() {
    } else if is_space(s[from]) {
        if cur.len() > 0 {
            if k > 0 {
                lemma_words_are_solid(s, from + 1, Seq::empty(), k - 1);
            }
        } else {
            lemma_words_are_solid(s, from + 1, Seq::empty(), k);
        }
    } else {
        lemma_words_are_solid(s, from + 1, cur.push(s[from]), k);
    }
}

/// The words of a text, in order.
pub fn split_words(s: &str) -> (out: Vec<String>)
    ensures
        texts(out@) == words_of(s@),
{
    let chars = chars_of(s);
    let mut out: Vec<String> = Vec::new();
    let mut cur: Vec<char> = Vec::new();
    let mut i: usize = 0;
    assert(texts(out@) + words_from(s@, 0, cur@) =~= words_of(s@));
    while i < chars.len()
        invariant
            i <= chars.len(),
            chars@ == s@,
            texts(out@) + words_from(s@, i as int, cur@) == words_of(s@),
        decreases chars.len() - i,
    {
        let c = chars[i];
        if is_whitespace(c) {
            if cur.len() > 0 {
                let word = text_of(&cur);
                proof {
                    assert(texts(out@.push(word)) =~= texts(out@) + seq![cur@]);
                    assert(texts(out@) + (seq![cur@] + words_from(s@, i + 1, Seq::empty()))
                        =~= texts(out@) + seq![cur@] + words_from(s@, i + 1, Seq::empty()));
                }
                out.push(word);
                cur = Vec::new();
            }
            assert(cur@ =~= Seq::<char>::empty());
        } else {
            cur.push(c);
        }
        i += 1;
    }
    if cur.len() > 0 {
        let word = text_of(&cur);
        proof {
            assert(texts(out@.push(word)) =~= texts(out@) + seq![cur@]);
        }
        out.push(word);
    } else {
        assert(texts(out@) + Seq::<Seq<char>>::empty() =~= texts(out@));
    }
    out
}

/// Whether `needle` occurs somewhere in `hay`.
pub fn contains_text(hay: &str, needle: &str) -> (found: bool)
    ensures
        found == is_infix(needle@, hay@),
{
    let h = chars_of(hay);
    let n = chars_of(needle);
    match find_from(&h, &n, 0) {
        Some(at) => {
            assert(occurs_at(hay@, needle@, at as int));
            true
        },
        None => {
            assert forall|at: int| !occurs_at(hay@, needle@, at) by {
                if at >= 0 {
                    assert(!occurs_at(h@, n@, at));
                }
            }
            false
        },
    }
}

/// Where the text starts once leading whitespace is dropped.
pub open spec fn trim_start_at(s: Seq<char>, at: int) -> bool {
    &&& 0 <= at <= s.len()
    &&& forall|j: int| 0 <= j < at ==> is_space(s[j])
    &&& at < s.len() ==> !is_space(s[at])
}

/// Where the text ends once trailing whitespace is dropped, given that it
/// starts at `start`.
pub open spec fn trim_end_at(s: Seq<char>, start: int, end: int) -> bool {
    &&& start <= end <= s.len()
    &&& forall|j: int| end <= j < s.len() ==> is_space(s[j])
    &&& start < end ==> !is_space(s[end - 1])
}

/// The bounds `(start, end)` of `s[lo..hi]` without its leading and trailing
/// whitespace.
pub fn trim_bounds(s: &Vec<char>, lo: usize, hi: usize) -> (r: (usize, usize))
    requires
        lo <= hi <= s.len(),
    ensures
        trim_start_at(s@.subrange(lo as int, hi as int), r.0 - lo),
        trim_end_at(s@.subrange(lo as int, hi as int), r.0 - lo, r.1 - lo),
        lo <= r.0 <= r.1 <= hi,
{
    let ghost sub = s@.subrange(lo as int, hi as int);
    let mut start: usize = lo;
    while start < hi && is_whitespace(s[start])
        invariant
            lo <= start <= hi <= s.len(),
            sub == s@.subrange(lo as int, hi as int),
            forall|j: int| 0 <= j < start - lo ==> is_space(sub[j]),
        decreases hi - start,
    {
        start += 1;
    }
    let mut end: usize = hi;
    while end > start && is_whitespace(s[end - 1])
        invariant
            lo <= start <= end <= hi <= s.len(),
            sub == s@.subrange(lo as int, hi as int),
            forall|j: int| end - lo <= j < sub.len() ==> is_space(sub[j]),
        decreases end - start,
    {
        end -= 1;
    }
    (start, end)
}

/// A copy of `s[lo..hi]`.
pub fn slice_chars(s: &Vec<char>, lo: usize, hi: usize) -> (out: Vec<char>)
    requires
        lo <= hi <= s.len(),
    ensures
        out@ == s@.subrange(lo as int, hi as int),
{
    let mut out: Vec<char> = Vec::new();
    let mut i: usize = lo;
    while i < hi
        invariant
            lo <= i <= hi <= s.len(),
            out@ == s@.subrange(lo as int, i as int),
        decreases hi - i,
    {
        out.push(s[i]);
        i += 1;
    }
    out
}

/// How many whitespace characters the text begins with.
pub open spec fn lead(s: Seq<char>) -> nat
    decreases s.len(),
{
    if s.len() > 0 && is_space(s[0]) {
        1 + lead(s.drop_first())
    } else {
        0
    }
}

/// How many whitespace characters the text ends with.
pub open spec fn trail(s: Seq<char>) -> nat
    decreases s.len(),
{
    if s.len() > 0 && is_space(s.last()) {
        1 + trail(s.drop_last())
    } else {
        0
    }
}

/// The text without its leading and trailing whitespace.
pub open spec fn trimmed(s: Seq<char>) -> Seq<char> {
    let rest = s.skip(lead(s) as int);
    rest.take(rest.len() - trail(rest))
}

/// The leading whitespace ends where the first other character stands.
pub proof fn lemma_lead(s: Seq<char>, at: int)
    requires
        trim_start_at(s, at),
    ensures
        lead(s) == at,
    decreases s.len(),
{
    if at > 0 {
        let rest = s.drop_first();
        assert forall|j: int| 0 <= j < at - 1 implies is_space(rest[j]) by {
            assert(rest[j] == s[j + 1]);
        }
        if at - 1 < rest.len() {
            assert(rest[at - 1] == s[at]);
        }
        lemma_lead(rest, at - 1);
    }
}

/// The trailing whitespace begins behind the last other character.
pub proof fn lemma_trail(s: Seq<char>, end: int)
    requires
        0 <= end <= s.len(),
        forall|j: int| end <= j < s.len() ==> is_space(s[j]),
        end > 0 ==> !is_space(s[end - 1]),
    ensures
        trail(s) == s.len() - end,
    decreases s.len(),
{
    if end < s.len() {
        let rest = s.drop_last();
        assert forall|j: int| end <= j < rest.len() implies is_space(rest[j]) by {
            assert(rest[j] == s[j]);
        }
        if end > 0 {
            assert(rest[end - 1] == s[end - 1]);
        }
        lemma_trail(rest, end);
    }
}

/// The bounds `(start, end)` of `s[lo..hi]` without its leading and trailing
/// whitespace.
pub fn trim_chars(s: &Vec<char>, lo: usize, hi: usize) -> (r: (usize, usize))
    requires
        lo <= hi <= s.len(),
    ensures
        lo <= r.0 <= r.1 <= hi,
        s@.subrange(r.0 as int, r.1 as int) == trimmed(s@.subrange(lo as int, hi as int)),
{
    let r = trim_bounds(s, lo, hi);
    proof {
        let sub = s@.subrange(lo as int, hi as int);
        let a = r.0 - lo;
        let b = r.1 - lo;
        lemma_lead(sub, a);
        let rest = sub.skip(a);
        assert forall|j: int| b - a <= j < rest.len() implies is_space(rest[j]) by {
            assert(rest[j] == sub[j + a]);
        }
        if b - a > 0 {
            assert(rest[b - a - 1] == sub[b - 1]);
        } else if rest.len() > 0 {
            assert(rest[0] == sub[a]);
            assert(is_space(rest[0]));
        }
        lemma_trail(rest, b - a);
        assert(rest.take(b - a) =~= s@.subrange(r.0 as int, r.1 as int));
    }
    r
}

/// The first position where `needle` occurs in `hay`, if it occurs.
pub open spec fn first_index(hay: Seq<char>, needle: Seq<char>) -> Option<int> {
    if exists|at: int| first_at(hay, needle, 0, at) {
        Some(choose|at: int| first_at(hay, needle, 0, at))
    } else {
        None
    }
}

/// Finds the first position where `needle` occurs in `hay`.
pub fn find_first(hay: &Vec<char>, needle: &Vec<char>) -> (r: Option<usize>)
    ensures
        match r {
            Some(at) => first_index(hay@, needle@) == Some(at as int) && at + needle@.len()
                <= hay@.len(),
            None => first_index(hay@, needle@) is None,
        },
{
    let r = find_from(hay, needle, 0);
    proof {
        match r {
            Some(at) => {
                let c = choose|c: int| first_at(hay@, needle@, 0, c);
                assert(first_at(hay@, needle@, 0, at as int));
                if c < at {
                    assert(!occurs_at(hay@, needle@, c));
                }
                if at < c {
                    assert(!occurs_at(hay@, needle@, at as int));
                }
            },
            None => {
                assert forall|at: int| !first_at(hay@, needle@, 0, at) by {
                    if 0 <= at {
                        assert(!occurs_at(hay@, needle@, at));
                    }
                }
            },
        }
    }
    r
}

/// The character of a digit.
pub open spec fn digit(d: nat) -> char {
    if d == 0 {
        '0'
    } else if d == 1 {
        '1'
    } else if d == 2 {
        '2'
    } else if d == 3 {
        '3'
    } else if d == 4 {
        '4'
    } else if d == 5 {
        '5'
    } else if d == 6 {
        '6'
    } else if d == 7 {
        '7'
    } else if d == 8 {
        '8'
    } else {
        '9'
    }
}

/// The decimal numeral of a number.
pub open spec fn decimal(n: nat) -> Seq<char>
    decreases n,
{
    if n < 10 {
        seq![digit(n)]
    } else {
        decimal(n / 10).push(digit(n % 10))
    }
}

/// The last `width` digits of a number, with leading zeros.
pub open spec fn padded(n: nat, width: nat) -> Seq<char>
    decreases width,
{
    if width == 0 {
        Seq::empty()
    } else {
        padded(n / 10, (width - 1) as nat).push(digit(n % 10))
    }
}

/// The character of the digit `d`.
pub fn digit_char(d: u64) -> (c: char)
    requires
        d < 10,
    ensures
        c == digit(d as nat),
{
    if d == 0 {
        '0'
    } else if d == 1 {
        '1'
    } else if d == 2 {
        '2'
    } else if d == 3 {
        '3'
    } else if d == 4 {
        '4'
    } else if d == 5 {
        '5'
    } else if d == 6 {
        '6'
    } else if d == 7 {
        '7'
    } else if d == 8 {
        '8'
    } else {
        '9'
    }
}

/// The decimal numeral of `n`, as characters.
pub fn decimal_chars(n: u64) -> (out: Vec<char>)
    ensures
        out@ == decimal(n as nat),
    decreases n,
{
    if n < 10 {
        let mut out: Vec<char> = Vec::new();
        out.push(digit_char(n));
        assert(out@ =~= seq![digit(n as nat)]);
        out
    } else {
        let mut out = decimal_chars(n / 10);
        out.push(digit_char(n % 10));
        out
    }
}

/// The last `width` digits of `n`, with leading zeros, as characters.
pub fn padded_chars(n: u64, width: u8) -> (out: Vec<char>)
    ensures
        out@ == padded(n as nat, width as nat),
    decreases width,
{
    if width == 0 {
        Vec::new()
    } else {
        let mut out = padded_chars(n / 10, width - 1);
        out.push(digit_char(n % 10));
        out
    }
}

/// Appends the characters of `more` to `out`.
pub fn push_chars(out: &mut Vec<char>, more: &Vec<char>)
    ensures
        final(out)@ == old(out)@ + more@,
{
    let mut i: usize = 0;
    while i < more.len()
        invariant
            i <= more.len(),
            out@ == old(out)@ + more@.take(i as int),
        decreases more.len() - i,
    {
        out.push(more[i]);
        assert(out@ =~= old(out)@ + more@.take(i + 1));
        i += 1;
    }
    assert(more@.take(more.len() as int) =~= more@);
}

/// Appends the characters of `more` to `out`.
pub fn push_text(out: &mut Vec<char>, more: &str)
    ensures
        final(out)@ == old(out)@ + more@,
{
    let chars = chars_of(more);
    push_chars(out, &chars);
}

} // verus!
