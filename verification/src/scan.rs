//! Scanning text: searching, trimming, splitting and replacing.
use vstd::prelude::*;
use vstd::string::*;

use crate::text::{chars_of, slice_text, Parts};
use crate::unicode::char_is_space;

verus! {

/// The first index from `i` on at which `p` occurs in `s`.
pub open spec fn find_from(s: Seq<char>, p: Seq<char>, i: int) -> Option<int>
    decreases s.len() - i + 1,
{
    if i < 0 || i + p.len() > s.len() {
        None
    } else if s.subrange(i, i + p.len()) == p {
        Some(i)
    } else {
        find_from(s, p, i + 1)
    }
}

/// The first index from `i` on at which the character `c` stands in `s`.
pub open spec fn find_char(s: Seq<char>, c: char, i: int) -> Option<int>
    decreases s.len() - i,
{
    if i < 0 || i >= s.len() {
        None
    } else if s[i] == c {
        Some(i)
    } else {
        find_char(s, c, i + 1)
    }
}

/// What is left of a text without the white space in front of it.
pub open spec fn trim_front(s: Seq<char>) -> Seq<char>
    decreases s.len(),
{
    if s.len() > 0 && char_is_space(s[0]) {
        trim_front(s.subrange(1, s.len() as int))
    } else {
        s
    }
}

/// What is left of a text without the white space behind it.
pub open spec fn trim_back(s: Seq<char>) -> Seq<char>
    decreases s.len(),
{
    if s.len() > 0 && char_is_space(s.last()) {
        trim_back(s.drop_last())
    } else {
        s
    }
}

/// What is left of a text without the white space around it.
pub open spec fn trim_text(s: Seq<char>) -> Seq<char> {
    trim_back(trim_front(s))
}

/// How many characters of a text stand in front of its first white space.
pub open spec fn word_len(s: Seq<char>) -> nat
    decreases s.len(),
{
    if s.len() == 0 || char_is_space(s[0]) {
        0
    } else {
        1 + word_len(s.subrange(1, s.len() as int))
    }
}

pub proof fn lemma_word_len(s: Seq<char>)
    ensures
        word_len(s) <= s.len(),
        s.len() > 0 && !char_is_space(s[0]) ==> word_len(s) > 0,
    decreases s.len(),
{
    if s.len() > 0 && !char_is_space(s[0]) {
        lemma_word_len(s.subrange(1, s.len() as int));
    }
}

pub proof fn lemma_trim_front(s: Seq<char>)
    ensures
        trim_front(s).len() <= s.len(),
        trim_front(s).len() > 0 ==> !char_is_space(trim_front(s)[0]),
    decreases s.len(),
{
    if s.len() > 0 && char_is_space(s[0]) {
        lemma_trim_front(s.subrange(1, s.len() as int));
    }
}

/// The words of a text: its longest runs without white space, in order.
pub open spec fn words(s: Seq<char>) -> Seq<Seq<char>>
    decreases s.len(),
{
    proof {
        lemma_trim_front(s);
        lemma_word_len(trim_front(s));
    }
    let t = trim_front(s);
    if t.len() == 0 {
        Seq::empty()
    } else {
        let k = word_len(t) as int;
        seq![t.subrange(0, k)] + words(t.subrange(k, t.len() as int))
    }
}

/// A text split at each occurrence of a character.
pub open spec fn split_on(s: Seq<char>, c: char) -> Seq<Seq<char>>
    decreases s.len(),
{
    match find_char(s, c, 0) {
        None => seq![s],
        Some(k) => if 0 <= k < s.len() {
            seq![s.subrange(0, k)] + split_on(s.subrange(k + 1, s.len() as int), c)
        } else {
            seq![s]
        },
    }
}

/// A text with each occurrence of a character replaced by another text.
pub open spec fn replace_char(s: Seq<char>, c: char, by: Seq<char>) -> Seq<char>
    decreases s.len(),
{
    if s.len() == 0 {
        Seq::empty()
    } else {
        replace_char(s.drop_last(), c, by) + (if s.last() == c {
            by
        } else {
            seq![s.last()]
        })
    }
}

/// A text with its first occurrence of `p` replaced by another text.
pub open spec fn replace_first(s: Seq<char>, p: Seq<char>, by: Seq<char>) -> Seq<char> {
    match find_from(s, p, 0) {
        None => s,
        Some(k) => s.subrange(0, k) + by + s.subrange(k + p.len(), s.len() as int),
    }
}

/// A text from index `i` on with each occurrence of `p`, taken from the left, replaced.
pub open spec fn replace_from(s: Seq<char>, p: Seq<char>, by: Seq<char>, i: int) -> Seq<char>
    decreases s.len() - i,
{
    proof {
        lemma_find_from(s, p, i);
    }
    if p.len() == 0 || i < 0 || i > s.len() {
        Seq::empty()
    } else {
        match find_from(s, p, i) {
            None => s.subrange(i, s.len() as int),
            Some(k) => if k < i {
                Seq::empty()
            } else {
                s.subrange(i, k) + by + replace_from(s, p, by, k + p.len())
            },
        }
    }
}

pub proof fn lemma_find_from(s: Seq<char>, p: Seq<char>, i: int)
    ensures
        match find_from(s, p, i) {
            Some(k) => i <= k && 0 <= k && k + p.len() <= s.len() && s.subrange(k, k + p.len())
                == p,
            None => true,
        },
    decreases s.len() - i + 1,
{
    if !(i < 0 || i + p.len() > s.len()) && s.subrange(i, i + p.len()) != p {
        lemma_find_from(s, p, i + 1);
    }
}

pub proof fn lemma_find_char(s: Seq<char>, c: char, i: int)
    ensures
        match find_char(s, c, i) {
            Some(k) => i <= k && 0 <= k < s.len() && s[k] == c && forall|j: int|
                i <= j < k ==> s[j] != c,
            None => i >= 0 ==> forall|j: int| i <= j < s.len() ==> s[j] != c,
        },
    decreases s.len() - i,
{
    if 0 <= i < s.len() && s[i] != c {
        lemma_find_char(s, c, i + 1);
    }
}

fn matches_at(b: &Vec<char>, p: &Vec<char>, i: usize) -> (r: bool)
    requires
        i + p@.len() <= b@.len(),
    ensures
        r == (b@.subrange(i as int, i + p@.len()) == p@),
{
    let n: usize = b.len();
    let mut j: usize = 0;
    while j < p.len()
        invariant
            j <= p@.len(),
            n == b@.len(),
            i + p@.len() <= n,
            forall|k: int| 0 <= k < j ==> b@[i + k] == p@[k],
        decreases p.len() - j,
    {
        if b[i + j] != p[j] {
            proof {
                assert(b@.subrange(i as int, i + p@.len())[j as int] != p@[j as int]);
            }
            return false;
        }
        j = j + 1;
    }
    proof {
        assert(b@.subrange(i as int, i + p@.len()) =~= p@);
    }
    true
}

/// The first index from `from` on at which `p` occurs in `b`.
pub fn find_chars(b: &Vec<char>, p: &Vec<char>, from: usize) -> (r: Option<usize>)
    ensures
        match r {
            Some(k) => find_from(b@, p@, from as int) == Some(k as int) && from <= k && k
                + p@.len() <= b@.len(),
            None => find_from(b@, p@, from as int) is None,
        },
{
    let n: usize = b.len();
    let m: usize = p.len();
    if m > n {
        return None;
    }
    let mut i: usize = from;
    while i <= n - m
        invariant
            from <= i,
            m == p@.len(),
            n == b@.len(),
            m <= n,
            find_from(b@, p@, from as int) == find_from(b@, p@, i as int),
        decreases n + 1 - i,
    {
        if matches_at(b, p, i) {
            return Some(i);
        }
        if i == n - m {
            proof {
                assert(find_from(b@, p@, i + 1) is None);
            }
            return None;
        }
        i = i + 1;
    }
    None
}

/// The first index from `from` on at which the character `c` stands.
pub fn find_one(b: &Vec<char>, c: char, from: usize) -> (r: Option<usize>)
    ensures
        match r {
            Some(k) => find_char(b@, c, from as int) == Some(k as int) && from <= k < b@.len(),
            None => find_char(b@, c, from as int) is None,
        },
{
    let mut i: usize = from;
    while i < b.len()
        invariant
            from <= i,
            find_char(b@, c, from as int) == find_char(b@, c, i as int),
        decreases b.len() - i,
    {
        if b[i] == c {
            return Some(i);
        }
        i = i + 1;
    }
    None
}

/// The characters from one index up to another, without the white space around them.
pub fn trim_slice(b: &Vec<char>, from: usize, to: usize) -> (r: String)
    requires
        from <= to <= b@.len(),
    ensures
        r@ == trim_text(b@.subrange(from as int, to as int)),
{
    let mut lo: usize = from;
    while lo < to && b[lo].is_whitespace()
        invariant
            from <= lo <= to <= b@.len(),
            trim_front(b@.subrange(from as int, to as int)) == trim_front(
                b@.subrange(lo as int, to as int),
            ),
        decreases to - lo,
    {
        proof {
            let t = b@.subrange(lo as int, to as int);
            assert(t.subrange(1, t.len() as int) =~= b@.subrange(lo + 1, to as int));
        }
        lo = lo + 1;
    }
    let ghost t = b@.subrange(lo as int, to as int);
    proof {
        assert(trim_front(t) == t) by {
            if t.len() > 0 {
                assert(t[0] == b@[lo as int]);
            }
        }
    }
    let mut hi: usize = to;
    while hi > lo && b[hi - 1].is_whitespace()
        invariant
            from <= lo <= hi <= to <= b@.len(),
            trim_back(t) == trim_back(b@.subrange(lo as int, hi as int)),
        decreases hi - lo,
    {
        proof {
            let u = b@.subrange(lo as int, hi as int);
            assert(u.drop_last() =~= b@.subrange(lo as int, hi - 1));
            assert(u.last() == b@[hi - 1]);
        }
        hi = hi - 1;
    }
    proof {
        let u = b@.subrange(lo as int, hi as int);
        if u.len() > 0 {
            assert(u.last() == b@[hi - 1]);
        }
    }
    slice_text(b, lo, hi)
}

/// A text without the white space around it.
pub fn trim(s: &str) -> (r: String)
    ensures
        r@ == trim_text(s@),
{
    let b = chars_of(s);
    proof {
        assert(b@.subrange(0, b@.len() as int) =~= s@);
    }
    trim_slice(&b, 0, b.len())
}

/// The words of a text.
pub fn split_words(s: &str) -> (r: Parts)
    ensures
        r@ == words(s@),
{
    let b = chars_of(s);
    let n: usize = b.len();
    let mut out = Parts::new();
    let mut i: usize = 0;
    proof {
        assert(b@.subrange(0, n as int) =~= s@);
        assert(out@ + words(b@.subrange(0, n as int)) =~= words(s@));
    }
    while i < n
        invariant
            i <= n,
            n == b@.len(),
            out@ + words(b@.subrange(i as int, n as int)) == words(s@),
        decreases n - i,
    {
        let ghost rest = b@.subrange(i as int, n as int);
        if b[i].is_whitespace() {
            proof {
                assert(rest.subrange(1, rest.len() as int) =~= b@.subrange(i + 1, n as int));
                assert(trim_front(rest) == trim_front(b@.subrange(i + 1, n as int)));
                assert(words(rest) == words(b@.subrange(i + 1, n as int)));
            }
            i = i + 1;
        } else {
            let start: usize = i;
            proof {
                lemma_word_len(rest);
            }
            while i < n && !b[i].is_whitespace()
                invariant
                    start <= i <= n,
                    n == b@.len(),
                    word_len(b@.subrange(start as int, n as int)) == (i - start) + word_len(
                        b@.subrange(i as int, n as int),
                    ),
                decreases n - i,
            {
                proof {
                    let t = b@.subrange(i as int, n as int);
                    assert(t.subrange(1, t.len() as int) =~= b@.subrange(i + 1, n as int));
                }
                i = i + 1;
            }
            proof {
                let k = i - start;
                let t = b@.subrange(i as int, n as int);
                if t.len() > 0 {
                    assert(t[0] == b@[i as int]);
                }
                assert(word_len(rest) == k);
                assert(rest[0] == b@[start as int]);
                assert(trim_front(rest) == rest);
                assert(rest.subrange(0, k) =~= b@.subrange(start as int, i as int));
                assert(rest.subrange(k, rest.len() as int) =~= t);
                assert(words(rest) == seq![b@.subrange(start as int, i as int)] + words(t));
            }
            let ghost before = out@;
            out.push(slice_text(&b, start, i));
            proof {
                let w = b@.subrange(start as int, i as int);
                let t = b@.subrange(i as int, n as int);
                assert(before + (seq![w] + words(t)) =~= before.push(w) + words(t));
            }
        }
    }
    proof {
        let t = b@.subrange(n as int, n as int);
        assert(t.len() == 0);
        assert(words(t) =~= Seq::empty());
        assert(out@ + words(t) =~= out@);
    }
    out
}

/// A text split at each occurrence of a character.
pub fn split_char(s: &str, c: char) -> (r: Parts)
    ensures
        r@ == split_on(s@, c),
{
    let b = chars_of(s);
    let n: usize = b.len();
    let mut out = Parts::new();
    let mut start: usize = 0;
    let mut i: usize = 0;
    proof {
        assert(b@.subrange(0, n as int) =~= s@);
        assert(out@ + split_on(b@.subrange(0, n as int), c) =~= split_on(s@, c));
    }
    while i < n
        invariant
            start <= i <= n,
            n == b@.len(),
            forall|j: int| start <= j < i ==> b@[j] != c,
            out@ + split_on(b@.subrange(start as int, n as int), c) == split_on(s@, c),
        decreases n - i,
    {
        if b[i] == c {
            let ghost before = out@;
            let ghost rest = b@.subrange(start as int, n as int);
            proof {
                lemma_find_char(rest, c, 0);
                assert(rest[i - start] == c);
                assert(find_char(rest, c, 0) == Some(i - start)) by {
                    let k = find_char(rest, c, 0)->0;
                    assert(forall|j: int| 0 <= j < i - start ==> rest[j] == b@[start + j]);
                    if k < i - start {
                        assert(rest[k] != c);
                    }
                }
                assert(rest.subrange(0, i - start) =~= b@.subrange(start as int, i as int));
                assert(rest.subrange(i - start + 1, rest.len() as int) =~= b@.subrange(
                    i + 1,
                    n as int,
                ));
            }
            out.push(slice_text(&b, start, i));
            proof {
                let w = b@.subrange(start as int, i as int);
                let t = split_on(b@.subrange(i + 1, n as int), c);
                assert(before + (seq![w] + t) =~= before.push(w) + t);
            }
            start = i + 1;
        }
        i = i + 1;
    }
    let ghost before = out@;
    let ghost rest = b@.subrange(start as int, n as int);
    proof {
        lemma_find_char(rest, c, 0);
        if let Some(k) = find_char(rest, c, 0) {
            assert(rest[k] == b@[start + k]);
        }
        assert(split_on(rest, c) =~= seq![rest]);
    }
    out.push(slice_text(&b, start, n));
    proof {
        assert(out@ =~= before + seq![rest]);
    }
    out
}

/// A text with each occurrence of a character replaced by another text.
pub fn replace_each(s: &str, c: char, by: &str) -> (r: String)
    ensures
        r@ == replace_char(s@, c, by@),
{
    let b = chars_of(s);
    let n: usize = b.len();
    let mut out: String = String::new();
    let mut i: usize = 0;
    while i < n
        invariant
            i <= n,
            n == b@.len(),
            out@ == replace_char(b@.take(i as int), c, by@),
        decreases n - i,
    {
        proof {
            assert(b@.take(i + 1).drop_last() =~= b@.take(i as int));
            assert(b@.take(i + 1).last() == b@[i as int]);
        }
        let ghost before = out@;
        if b[i] == c {
            out.append(by);
        } else {
            out.push(b[i]);
            proof {
                assert(out@ =~= before + seq![b@[i as int]]);
            }
        }
        i = i + 1;
    }
    proof {
        assert(b@.take(n as int) =~= s@);
    }
    out
}

/// A text with its first occurrence of `p` replaced by another text.
pub fn replace_one(s: &str, p: &str, by: &str) -> (r: String)
    ensures
        r@ == replace_first(s@, p@, by@),
{
    let b = chars_of(s);
    let q = chars_of(p);
    match find_chars(&b, &q, 0) {
        None => s.to_owned(),
        Some(k) => {
            let n: usize = b.len();
            let mut out: String = slice_text(&b, 0, k);
            out.append(by);
            out.append(&slice_text(&b, k + q.len(), n));
            out
        },
    }
}

fn replace_rest(b: &Vec<char>, q: &Vec<char>, by: &str, from: usize) -> (r: String)
    requires
        from <= b@.len(),
        q@.len() > 0,
    ensures
        r@ == replace_from(b@, q@, by@, from as int),
    decreases b@.len() - from,
{
    match find_chars(b, q, from) {
        None => slice_text(b, from, b.len()),
        Some(k) => {
            let n: usize = b.len();
            assert(k + q@.len() <= n);
            let mut out: String = slice_text(b, from, k);
            out.append(by);
            out.append(&replace_rest(b, q, by, k + q.len()));
            out
        },
    }
}

/// A text with each occurrence of a non-empty text, taken from the left, replaced by another.
pub fn replace_all(s: &str, p: &str, by: &str) -> (r: String)
    requires
        p@.len() > 0,
    ensures
        r@ == replace_from(s@, p@, by@, 0),
{
    let b = chars_of(s);
    let q = chars_of(p);
    replace_rest(&b, &q, by, 0)
}

/// A text from index `i` on, split at each occurrence of a non-empty text, taken from the left.
pub open spec fn split_from(s: Seq<char>, p: Seq<char>, i: int) -> Seq<Seq<char>>
    decreases s.len() - i,
{
    proof {
        lemma_find_from(s, p, i);
    }
    if p.len() == 0 || i < 0 || i > s.len() {
        Seq::empty()
    } else {
        match find_from(s, p, i) {
            None => seq![s.subrange(i, s.len() as int)],
            Some(k) => if k < i {
                Seq::empty()
            } else {
                seq![s.subrange(i, k)] + split_from(s, p, k + p.len())
            },
        }
    }
}

/// The first `n` characters of a text, each as a text.
pub open spec fn letters(s: Seq<char>, n: int) -> Seq<Seq<char>>
    decreases n,
{
    if n <= 0 || n > s.len() {
        Seq::empty()
    } else {
        letters(s, n - 1).push(seq![s[n - 1]])
    }
}

/// A text split at each occurrence of another. The empty text occurs around each character.
pub open spec fn split_text(s: Seq<char>, p: Seq<char>) -> Seq<Seq<char>> {
    if p.len() == 0 {
        (seq![""@] + letters(s, s.len() as int)).push(""@)
    } else {
        split_from(s, p, 0)
    }
}

/// The first `n` characters of a text with another text in front of the first and behind each.
pub open spec fn woven(s: Seq<char>, by: Seq<char>, n: int) -> Seq<char>
    decreases n,
{
    if n <= 0 || n > s.len() {
        by
    } else {
        woven(s, by, n - 1).push(s[n - 1]) + by
    }
}

/// A text with each occurrence of another replaced. The empty text occurs around each character.
pub open spec fn replace_text(s: Seq<char>, p: Seq<char>, by: Seq<char>) -> Seq<char> {
    if p.len() == 0 {
        woven(s, by, s.len() as int)
    } else {
        replace_from(s, p, by, 0)
    }
}

fn split_rest(b: &Vec<char>, q: &Vec<char>) -> (r: Parts)
    requires
        q@.len() > 0,
    ensures
        r@ == split_from(b@, q@, 0),
{
    let n: usize = b.len();
    let mut out = Parts::new();
    let mut i: usize = 0;
    proof {
        assert(out@ + split_from(b@, q@, 0) =~= split_from(b@, q@, 0));
    }
    loop
        invariant
            i <= n,
            n == b@.len(),
            q@.len() > 0,
            out@ + split_from(b@, q@, i as int) == split_from(b@, q@, 0),
        decreases n - i,
    {
        match find_chars(b, q, i) {
            None => {
                let ghost before = out@;
                out.push(slice_text(b, i, n));
                proof {
                    assert(out@ =~= before + seq![b@.subrange(i as int, n as int)]);
                }
                return out;
            },
            Some(k) => {
                assert(k + q@.len() <= n);
                let ghost before = out@;
                out.push(slice_text(b, i, k));
                proof {
                    let w = b@.subrange(i as int, k as int);
                    let t = split_from(b@, q@, k + q@.len());
                    assert(before + (seq![w] + t) =~= before.push(w) + t);
                }
                i = k + q.len();
            },
        }
    }
}

fn letter_text(c: char) -> (r: String)
    ensures
        r@ == seq![c],
{
    let mut s = String::new();
    s.push(c);
    proof {
        assert(s@ =~= seq![c]);
    }
    s
}

/// A text split at each occurrence of another.
pub fn split(s: &str, p: &str) -> (r: Parts)
    ensures
        r@ == split_text(s@, p@),
{
    let b = chars_of(s);
    let q = chars_of(p);
    if q.len() > 0 {
        return split_rest(&b, &q);
    }
    let n: usize = b.len();
    let mut out = Parts::new();
    out.push("".to_owned());
    let mut i: usize = 0;
    proof {
        assert(out@ =~= seq![""@] + letters(b@, 0));
    }
    while i < n
        invariant
            i <= n,
            n == b@.len(),
            out@ == seq![""@] + letters(b@, i as int),
        decreases n - i,
    {
        let ghost before = out@;
        out.push(letter_text(b[i]));
        proof {
            let c = seq![b@[i as int]];
            assert((seq![""@] + letters(b@, i as int)).push(c) =~= seq![""@] + letters(
                b@,
                i as int,
            ).push(c));
        }
        i = i + 1;
    }
    out.push("".to_owned());
    out
}

/// A text with each occurrence of another replaced.
pub fn replace(s: &str, p: &str, by: &str) -> (r: String)
    ensures
        r@ == replace_text(s@, p@, by@),
{
    let b = chars_of(s);
    let q = chars_of(p);
    if q.len() > 0 {
        return replace_rest(&b, &q, by, 0);
    }
    let n: usize = b.len();
    let mut out: String = by.to_owned();
    let mut i: usize = 0;
    while i < n
        invariant
            i <= n,
            n == b@.len(),
            out@ == woven(b@, by@, i as int),
        decreases n - i,
    {
        out.push(b[i]);
        out.append(by);
        i = i + 1;
    }
    out
}

/// A line without the carriage return behind it.
pub open spec fn without_return(s: Seq<char>) -> Seq<char> {
    if s.len() > 0 && s.last() == '\r' {
        s.drop_last()
    } else {
        s
    }
}

/// The first `n` lines, each without the carriage return behind it.
pub open spec fn without_returns(ls: Seq<Seq<char>>, n: int) -> Seq<Seq<char>>
    decreases n,
{
    if n <= 0 || n > ls.len() {
        Seq::empty()
    } else {
        without_returns(ls, n - 1).push(without_return(ls[n - 1]))
    }
}

/// The lines of a text. A line ends with a line feed, or a carriage return and a line feed; what
/// follows the last line end is a line where it is not empty.
pub open spec fn lines_of(s: Seq<char>) -> Seq<Seq<char>> {
    let parts = split_on(s, '\n');
    let ended = without_returns(parts, parts.len() - 1);
    if parts.len() == 0 || parts.last().len() == 0 {
        ended
    } else {
        ended.push(parts.last())
    }
}

fn drop_return(s: &str) -> (r: String)
    ensures
        r@ == without_return(s@),
{
    let b = chars_of(s);
    let n: usize = b.len();
    if n > 0 && b[n - 1] == '\r' {
        proof {
            assert(s@.drop_last() =~= b@.subrange(0, n - 1));
        }
        slice_text(&b, 0, n - 1)
    } else {
        s.to_owned()
    }
}

proof fn lemma_split_on_len(s: Seq<char>, c: char)
    ensures
        split_on(s, c).len() >= 1,
    decreases s.len(),
{
    if let Some(k) = find_char(s, c, 0) {
        if 0 <= k < s.len() {
            lemma_split_on_len(s.subrange(k + 1, s.len() as int), c);
        }
    }
}

/// The lines of a text.
pub fn split_lines(s: &str) -> (r: Parts)
    ensures
        r@ == lines_of(s@),
{
    let parts = split_char(s, '\n');
    proof {
        lemma_split_on_len(s@, '\n');
    }
    let n: usize = parts.len();
    let mut out = Parts::new();
    let mut i: usize = 0;
    while i + 1 < n
        invariant
            i < n,
            n == parts@.len(),
            out@ == without_returns(parts@, i as int),
        decreases n - i,
    {
        out.push(drop_return(parts.get(i)));
        i = i + 1;
    }
    if parts.get(n - 1).as_str().unicode_len() > 0 {
        out.push(parts.get(n - 1).clone());
    }
    out
}

} // verus!
