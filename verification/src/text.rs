//! Text building blocks: comparison, concatenation, and lists of texts.
use vstd::prelude::*;
use vstd::string::*;

verus! {

/// `<str as PartialEq>::eq`: two texts are equal when their characters are.
#[verifier::external_body]
pub(crate) fn same(a: &str, b: &str) -> (r: bool)
    ensures
        r == (a@ == b@),
{
    a == b
}

/// `String::push`: appends one character.
pub assume_specification[ String::push ](s: &mut String, c: char)
    ensures
        final(s)@ == old(s)@.push(c),
;

/// Two texts, one after the other.
pub fn cat2(a: &str, b: &str) -> (res: String)
    ensures
        res@ == a@ + b@,
{
    let mut s: String = a.to_owned();
    s.append(b);
    s
}

/// Three texts, one after the other.
pub fn cat3(a: &str, b: &str, c: &str) -> (res: String)
    ensures
        res@ == a@ + b@ + c@,
{
    let mut s: String = cat2(a, b);
    s.append(c);
    s
}

/// Four texts, one after the other.
pub fn cat4(a: &str, b: &str, c: &str, d: &str) -> (res: String)
    ensures
        res@ == a@ + b@ + c@ + d@,
{
    let mut s: String = cat3(a, b, c);
    s.append(d);
    s
}

/// Five texts, one after the other.
pub fn cat5(a: &str, b: &str, c: &str, d: &str, e: &str) -> (res: String)
    ensures
        res@ == a@ + b@ + c@ + d@ + e@,
{
    let mut s: String = cat4(a, b, c, d);
    s.append(e);
    s
}

/// Six texts, one after the other.
pub fn cat6(a: &str, b: &str, c: &str, d: &str, e: &str, f: &str) -> (res: String)
    ensures
        res@ == a@ + b@ + c@ + d@ + e@ + f@,
{
    let mut s: String = cat5(a, b, c, d, e);
    s.append(f);
    s
}

/// Seven texts, one after the other.
pub fn cat7(a: &str, b: &str, c: &str, d: &str, e: &str, f: &str, g: &str) -> (res: String)
    ensures
        res@ == a@ + b@ + c@ + d@ + e@ + f@ + g@,
{
    let mut s: String = cat6(a, b, c, d, e, f);
    s.append(g);
    s
}

/// Eight texts, one after the other.
pub fn cat8(a: &str, b: &str, c: &str, d: &str, e: &str, f: &str, g: &str, h: &str) -> (res: String)
    ensures
        res@ == a@ + b@ + c@ + d@ + e@ + f@ + g@ + h@,
{
    let mut s: String = cat7(a, b, c, d, e, f, g);
    s.append(h);
    s
}

/// Nine texts, one after the other.
pub fn cat9(a: &str, b: &str, c: &str, d: &str, e: &str, f: &str, g: &str, h: &str, i: &str) -> (res: String)
    ensures
        res@ == a@ + b@ + c@ + d@ + e@ + f@ + g@ + h@ + i@,
{
    let mut s: String = cat8(a, b, c, d, e, f, g, h);
    s.append(i);
    s
}

/// Ten texts, one after the other.
pub fn cat10(a: &str, b: &str, c: &str, d: &str, e: &str, f: &str, g: &str, h: &str, i: &str, j: &str) -> (res: String)
    ensures
        res@ == a@ + b@ + c@ + d@ + e@ + f@ + g@ + h@ + i@ + j@,
{
    let mut s: String = cat9(a, b, c, d, e, f, g, h, i);
    s.append(j);
    s
}

/// Eleven texts, one after the other.
pub fn cat11(a: &str, b: &str, c: &str, d: &str, e: &str, f: &str, g: &str, h: &str, i: &str, j: &str, k: &str) -> (res: String)
    ensures
        res@ == a@ + b@ + c@ + d@ + e@ + f@ + g@ + h@ + i@ + j@ + k@,
{
    let mut s: String = cat10(a, b, c, d, e, f, g, h, i, j);
    s.append(k);
    s
}

/// Twelve texts, one after the other.
pub fn cat12(a: &str, b: &str, c: &str, d: &str, e: &str, f: &str, g: &str, h: &str, i: &str, j: &str, k: &str, l: &str) -> (res: String)
    ensures
        res@ == a@ + b@ + c@ + d@ + e@ + f@ + g@ + h@ + i@ + j@ + k@ + l@,
{
    let mut s: String = cat11(a, b, c, d, e, f, g, h, i, j, k);
    s.append(l);
    s
}

/// Thirteen texts, one after the other.
pub fn cat13(a: &str, b: &str, c: &str, d: &str, e: &str, f: &str, g: &str, h: &str, i: &str, j: &str, k: &str, l: &str, m: &str) -> (res: String)
    ensures
        res@ == a@ + b@ + c@ + d@ + e@ + f@ + g@ + h@ + i@ + j@ + k@ + l@ + m@,
{
    let mut s: String = cat12(a, b, c, d, e, f, g, h, i, j, k, l);
    s.append(m);
    s
}

/// Fourteen texts, one after the other.
pub fn cat14(a: &str, b: &str, c: &str, d: &str, e: &str, f: &str, g: &str, h: &str, i: &str, j: &str, k: &str, l: &str, m: &str, n: &str) -> (res: String)
    ensures
        res@ == a@ + b@ + c@ + d@ + e@ + f@ + g@ + h@ + i@ + j@ + k@ + l@ + m@ + n@,
{
    let mut s: String = cat13(a, b, c, d, e, f, g, h, i, j, k, l, m);
    s.append(n);
    s
}

/// What joining a list of texts with a separator gives.
pub open spec fn join_text(parts: Seq<Seq<char>>, sep: Seq<char>) -> Seq<char>
    decreases parts.len(),
{
    if parts.len() == 0 {
        Seq::empty()
    } else if parts.len() == 1 {
        parts[0]
    } else {
        join_text(parts.drop_last(), sep) + sep + parts.last()
    }
}

/// A list of texts; its view is the list of their characters.
#[derive(Debug)]
pub struct Parts {
    pub items: Vec<String>,
}

impl View for Parts {
    type V = Seq<Seq<char>>;

    open spec fn view(&self) -> Seq<Seq<char>> {
        Seq::new(self.items@.len(), |i: int| self.items@[i]@)
    }
}

impl Parts {
    /// The empty list.
    pub fn new() -> (r: Parts)
        ensures
            r@ == Seq::<Seq<char>>::empty(),
    {
        let r = Parts { items: Vec::new() };
        proof {
            assert(r@ =~= Seq::<Seq<char>>::empty());
        }
        r
    }

    /// Appends one text.
    pub fn push(&mut self, s: String)
        ensures
            final(self)@ == old(self)@.push(s@),
    {
        self.items.push(s);
        proof {
            assert(self@ =~= old(self)@.push(s@));
        }
    }

    /// Appends all texts of another list.
    pub fn extend(&mut self, other: Parts)
        ensures
            final(self)@ == old(self)@ + other@,
    {
        let ghost before = self@;
        let n: usize = other.items.len();
        let mut i: usize = 0;
        while i < n
            invariant
                i <= n,
                n == other.items@.len(),
                self@ =~= before + other@.take(i as int),
            decreases n - i,
        {
            self.push(other.items[i].clone());
            i = i + 1;
        }
    }

    /// A copy of the list.
    pub fn copy(&self) -> (r: Parts)
        ensures
            r@ == self@,
    {
        let mut out = Parts::new();
        let n: usize = self.items.len();
        let mut i: usize = 0;
        while i < n
            invariant
                i <= n,
                n == self.items@.len(),
                out@ =~= self@.take(i as int),
            decreases n - i,
        {
            out.push(self.items[i].clone());
            i = i + 1;
        }
        proof {
            assert(self@.take(n as int) =~= self@);
        }
        out
    }

    /// The number of texts.
    pub fn len(&self) -> (r: usize)
        ensures
            r == self@.len(),
    {
        self.items.len()
    }

    /// The text at an index.
    pub fn get(&self, i: usize) -> (r: &String)
        requires
            i < self@.len(),
        ensures
            r@ == self@[i as int],
    {
        &self.items[i]
    }

    /// Whether a text is in the list.
    pub fn contains(&self, s: &str) -> (r: bool)
        ensures
            r == self@.contains(s@),
    {
        let mut i: usize = 0;
        while i < self.items.len()
            invariant
                i <= self.items.len(),
                forall|j: int| 0 <= j < i ==> self@[j] != s@,
            decreases self.items.len() - i,
        {
            if same(&self.items[i], s) {
                proof {
                    assert(self@[i as int] == s@);
                }
                return true;
            }
            i = i + 1;
        }
        false
    }

    /// The texts joined with a separator.
    pub fn join(&self, sep: &str) -> (r: String)
        ensures
            r@ == join_text(self@, sep@),
    {
        let n: usize = self.items.len();
        if n == 0 {
            return String::new();
        }
        let mut out: String = self.items[0].clone();
        let mut i: usize = 1;
        proof {
            assert(self@.take(1)[0] == out@);
        }
        while i < n
            invariant
                1 <= i <= n,
                n == self.items@.len(),
                out@ == join_text(self@.take(i as int), sep@),
            decreases n - i,
        {
            proof {
                assert(self@.take(i + 1).drop_last() =~= self@.take(i as int));
                assert(self@.take(i + 1).last() == self.items@[i as int]@);
            }
            out.append(sep);
            out.append(&self.items[i]);
            i = i + 1;
        }
        proof {
            assert(self@.take(n as int) =~= self@);
        }
        out
    }
}

/// The characters of a text.
pub fn chars_of(s: &str) -> (r: Vec<char>)
    ensures
        r@ == s@,
{
    let mut r: Vec<char> = Vec::new();
    for c in it: s.chars()
        invariant
            r@ == s@.take(it.index() as int),
            it.seq() == s@,
    {
        r.push(c);
    }
    r
}

/// The characters from one index up to another, as a text.
pub fn slice_text(b: &Vec<char>, from: usize, to: usize) -> (r: String)
    requires
        from <= to <= b@.len(),
    ensures
        r@ == b@.subrange(from as int, to as int),
{
    let mut r: String = String::new();
    let mut i: usize = from;
    while i < to
        invariant
            from <= i <= to <= b@.len(),
            r@ == b@.subrange(from as int, i as int),
        decreases to - i,
    {
        r.push(b[i]);
        i = i + 1;
    }
    r
}

/// Whether a text starts with another one.
pub open spec fn has_prefix(s: Seq<char>, p: Seq<char>) -> bool {
    p.len() <= s.len() && s.subrange(0, p.len() as int) == p
}

/// Whether a text ends with another one.
pub open spec fn has_suffix(s: Seq<char>, p: Seq<char>) -> bool {
    p.len() <= s.len() && s.subrange(s.len() - p.len(), s.len() as int) == p
}

/// Whether `s` starts with `p`.
pub fn starts_with(s: &str, p: &str) -> (r: bool)
    ensures
        r == has_prefix(s@, p@),
{
    let n: usize = s.unicode_len();
    let m: usize = p.unicode_len();
    m <= n && same(s.substring_char(0, m), p)
}

/// Whether `s` ends with `p`.
pub fn ends_with(s: &str, p: &str) -> (r: bool)
    ensures
        r == has_suffix(s@, p@),
{
    let n: usize = s.unicode_len();
    let m: usize = p.unicode_len();
    m <= n && same(s.substring_char(n - m, n), p)
}

/// What is left of a text behind a prefix that it has.
pub open spec fn after_prefix(s: Seq<char>, p: Seq<char>) -> Option<Seq<char>> {
    if has_prefix(s, p) {
        Some(s.subrange(p.len() as int, s.len() as int))
    } else {
        None
    }
}

/// What is left of `s` behind the prefix `p`, or `None` where `s` does not start with it.
pub fn strip_prefix<'a>(s: &'a str, p: &str) -> (r: Option<&'a str>)
    ensures
        match r {
            Some(t) => after_prefix(s@, p@) == Some(t@),
            None => after_prefix(s@, p@) is None,
        },
{
    if starts_with(s, p) {
        let n: usize = s.unicode_len();
        let m: usize = p.unicode_len();
        Some(s.substring_char(m, n))
    } else {
        None
    }
}

} // verus!
