//! The HTTP side of a server: framing requests, reading their heads, the check against forged
//! requests, where a request goes, and the text of a response.
use vstd::prelude::*;
use vstd::string::*;
use vstd::utf8::encode_utf8;

use crate::num::{digits_value, all_digits, is_digit, nat_text, u128_text, usize_text};
use crate::resolve::opt_text;
use crate::runtime::SECURITY_HEADERS;
use crate::scan::{
    find_char, find_chars, find_from, find_one, lines_of, split_char, split_lines, split_on, split_words,
    trim, trim_text, words,
};
use crate::session::hex_digit;
use crate::text::{
    cat13, cat2, cat3, cat8, chars_of, has_prefix, has_suffix, ends_with, same, slice_text,
    starts_with, Parts,
};

verus! {

/// The text that std makes of bytes, with a replacement for what is no UTF-8.
pub uninterp spec fn lossy_text(b: Seq<u8>) -> Seq<char>;

/// `String::from_utf8_lossy`, a function of the bytes alone.
#[verifier::external_body]
fn lossy(b: &[u8]) -> (r: String)
    ensures
        r@ == lossy_text(b@),
{
    String::from_utf8_lossy(b).into_owned()
}

/// The reason phrase of a status.
pub open spec fn reason_text(code: nat) -> Seq<char> {
    if code == 302 {
        "Found"@
    } else if code == 403 {
        "Forbidden"@
    } else if code == 404 {
        "Not Found"@
    } else if code == 501 {
        "Not Implemented"@
    } else {
        "OK"@
    }
}

/// The reason phrase of a status.
pub fn reason(code: u16) -> (r: &'static str)
    ensures
        r@ == reason_text(code as nat),
{
    if code == 302 {
        "Found"
    } else if code == 403 {
        "Forbidden"
    } else if code == 404 {
        "Not Found"
    } else if code == 501 {
        "Not Implemented"
    } else {
        "OK"
    }
}

/// The lower-case form of an ASCII letter; any other character is itself.
pub open spec fn lower_ascii(c: char) -> char {
    if 'A' <= c <= 'Z' {
        (c as int + 32) as char
    } else {
        c
    }
}

/// A text with its ASCII letters in lower case.
pub open spec fn lower_ascii_text(s: Seq<char>) -> Seq<char> {
    Seq::new(s.len(), |i: int| lower_ascii(s[i]))
}

fn lower_letter(c: char) -> (r: char)
    ensures
        r == lower_ascii(c),
{
    if 'A' <= c && c <= 'Z' {
        ((c as u8) + 32) as char
    } else {
        c
    }
}

fn lower_letters(s: &str) -> (r: String)
    ensures
        r@ == lower_ascii_text(s@),
{
    let b = chars_of(s);
    let mut out = String::new();
    let mut i: usize = 0;
    while i < b.len()
        invariant
            i <= b@.len(),
            b@ == s@,
            out@ == lower_ascii_text(s@.take(i as int)),
        decreases b.len() - i,
    {
        out.push(lower_letter(b[i]));
        i = i + 1;
        proof {
            assert(out@ =~= lower_ascii_text(s@.take(i as int)));
        }
    }
    proof {
        assert(s@.take(b@.len() as int) =~= s@);
    }
    out
}

/// Whether two texts differ in nothing but the case of ASCII letters.
pub open spec fn same_letters(a: Seq<char>, b: Seq<char>) -> bool {
    lower_ascii_text(a) == lower_ascii_text(b)
}

/// What stands behind a name at the start of a line, in any case of its letters.
pub open spec fn after_name(line: Seq<char>, name: Seq<char>) -> Option<Seq<char>> {
    if line.len() >= name.len() && same_letters(line.subrange(0, name.len() as int), name) {
        Some(line.subrange(name.len() as int, line.len() as int))
    } else {
        None
    }
}

fn behind_name(line: &str, name: &str) -> (r: Option<String>)
    ensures
        opt_text(r) == after_name(line@, name@),
{
    let b = chars_of(line);
    let k: usize = name.unicode_len();
    if b.len() >= k {
        let head = slice_text(&b, 0, k);
        if same(&lower_letters(&head), &lower_letters(name)) {
            return Some(slice_text(&b, k, b.len()));
        }
    }
    None
}

/// The first of the `;`-separated pairs from the `i`th on that has a name, by its value.
pub open spec fn pair_value(pairs: Seq<Seq<char>>, i: int, name: Seq<char>) -> Option<Seq<char>>
    decreases pairs.len() - i,
{
    if i < 0 || i >= pairs.len() {
        None
    } else {
        let p = trim_text(pairs[i]);
        if has_prefix(p, name + "="@) {
            Some(p.subrange((name + "="@).len() as int, p.len() as int))
        } else {
            pair_value(pairs, i + 1, name)
        }
    }
}

/// The value of a cookie, from the `i`th line on.
pub open spec fn cookie_in(lines: Seq<Seq<char>>, i: int, name: Seq<char>) -> Option<Seq<char>>
    decreases lines.len() - i,
{
    if i < 0 || i >= lines.len() {
        None
    } else {
        match after_name(lines[i], "cookie:"@) {
            Some(rest) => match pair_value(split_on(rest, ';'), 0, name) {
                Some(v) => Some(v),
                None => cookie_in(lines, i + 1, name),
            },
            None => cookie_in(lines, i + 1, name),
        }
    }
}

fn find_pair(pairs: &Parts, name: &str) -> (r: Option<String>)
    ensures
        opt_text(r) == pair_value(pairs@, 0, name@),
{
    let key = cat2(name, "=");
    let k: usize = key.as_str().unicode_len();
    let mut i: usize = 0;
    while i < pairs.len()
        invariant
            i <= pairs@.len(),
            key@ == name@ + "="@,
            k == key@.len(),
            pair_value(pairs@, 0, name@) == pair_value(pairs@, i as int, name@),
        decreases pairs@.len() - i,
    {
        let p = trim(pairs.get(i));
        if starts_with(&p, &key) {
            let b = chars_of(&p);
            return Some(slice_text(&b, k, b.len()));
        }
        i = i + 1;
    }
    None
}

/// The value of a cookie of a request.
pub fn cookie_value(req: &str, name: &str) -> (r: Option<String>)
    ensures
        opt_text(r) == cookie_in(lines_of(req@), 0, name@),
{
    let lines = split_lines(req);
    let mut i: usize = 0;
    while i < lines.len()
        invariant
            i <= lines@.len(),
            lines@ == lines_of(req@),
            cookie_in(lines@, 0, name@) == cookie_in(lines@, i as int, name@),
        decreases lines@.len() - i,
    {
        if let Some(rest) = behind_name(lines.get(i), "cookie:") {
            let pairs = split_char(&rest, ';');
            if let Some(v) = find_pair(&pairs, name) {
                return Some(v);
            }
        }
        i = i + 1;
    }
    None
}

/// The value of a header, from the `i`th line on.
pub open spec fn header_in(lines: Seq<Seq<char>>, i: int, name: Seq<char>) -> Option<Seq<char>>
    decreases lines.len() - i,
{
    if i < 0 || i >= lines.len() {
        None
    } else {
        match after_name(lines[i], name + ":"@) {
            Some(rest) => Some(trim_text(rest)),
            None => header_in(lines, i + 1, name),
        }
    }
}

/// The value of a header of a request.
pub fn header_value(req: &str, name: &str) -> (r: Option<String>)
    ensures
        opt_text(r) == header_in(lines_of(req@), 0, name@),
{
    let key = cat2(name, ":");
    let lines = split_lines(req);
    let mut i: usize = 0;
    while i < lines.len()
        invariant
            i <= lines@.len(),
            key@ == name@ + ":"@,
            lines@ == lines_of(req@),
            header_in(lines@, 0, name@) == header_in(lines@, i as int, name@),
        decreases lines@.len() - i,
    {
        if let Some(rest) = behind_name(lines.get(i), &key) {
            return Some(trim(&rest));
        }
        i = i + 1;
    }
    None
}

/// The number that a text of digits, with a plus in front or not, stands for; zero for any other text
/// and for one that is too large.
pub open spec fn size_of_text(t: Seq<char>) -> nat {
    let d = if t.len() > 1 && t[0] == '+' {
        t.subrange(1, t.len() as int)
    } else {
        t
    };
    if d.len() > 0 && all_digits(d) && digits_value(d) <= usize::MAX {
        digits_value(d)
    } else {
        0
    }
}

/// The length that the lines of a head declare, from the `i`th on.
pub open spec fn length_in(lines: Seq<Seq<char>>, i: int) -> nat
    decreases lines.len() - i,
{
    if i < 0 || i >= lines.len() {
        0
    } else {
        match after_name(lines[i], "content-length:"@) {
            Some(rest) => if rest.len() > 0 {
                size_of_text(trim_text(rest))
            } else {
                length_in(lines, i + 1)
            },
            None => length_in(lines, i + 1),
        }
    }
}

proof fn lemma_digits_grow(s: Seq<char>, k: int)
    requires
        0 <= k <= s.len(),
    ensures
        digits_value(s) >= digits_value(s.take(k)),
    decreases s.len(),
{
    if k < s.len() {
        lemma_digits_grow(s.drop_last(), k);
        assert(s.drop_last().take(k) =~= s.take(k));
    } else {
        assert(s.take(k) =~= s);
    }
}

fn parse_size(t: &str) -> (r: usize)
    ensures
        r == size_of_text(t@),
{
    let b = chars_of(t);
    let n: usize = b.len();
    let start: usize = if n > 1 && b[0] == '+' {
        1
    } else {
        0
    };
    let ghost d = t@.subrange(start as int, n as int);
    proof {
        if start == 0 {
            assert(d =~= t@);
        }
    }
    if n == start {
        return 0;
    }
    let mut v: usize = 0;
    let mut i: usize = start;
    proof {
        assert(d.take(0) =~= Seq::<char>::empty());
    }
    while i < n
        invariant
            start <= i <= n,
            n == b@.len(),
            b@ == t@,
            d == t@.subrange(start as int, n as int),
            start == (if n > 1 && t@[0] == '+' {
                1int
            } else {
                0int
            }),
            start < n,
            start == 0 ==> d == t@,
            forall|j: int| 0 <= j < i - start ==> is_digit(#[trigger] d[j]),
            v == digits_value(d.take(i - start)),
        decreases n - i,
    {
        let c = b[i];
        proof {
            assert(d[i - start] == c);
            assert(d.take(i - start + 1).drop_last() =~= d.take(i - start));
            assert(d.take(i - start + 1).last() == c);
        }
        if !('0' <= c && c <= '9') {
            return 0;
        }
        let x: usize = (c as u32 - 48) as usize;
        if v > usize::MAX / 10 || v * 10 > usize::MAX - x {
            proof {
                assert(digits_value(d.take(i - start + 1)) == v * 10 + x);
                lemma_digits_grow(d, i - start + 1);
            }
            return 0;
        }
        v = v * 10 + x;
        i = i + 1;
    }
    proof {
        assert(d.take(n - start) =~= d);
    }
    v
}

/// The length of the body that a request's head declares.
pub fn content_length(head: &str) -> (r: usize)
    ensures
        r == length_in(lines_of(head@), 0),
{
    let lines = split_lines(head);
    let mut i: usize = 0;
    while i < lines.len()
        invariant
            i <= lines@.len(),
            lines@ == lines_of(head@),
            length_in(lines@, 0) == length_in(lines@, i as int),
        decreases lines@.len() - i,
    {
        if let Some(rest) = behind_name(lines.get(i), "content-length:") {
            if rest.as_str().unicode_len() > 0 {
                return parse_size(&trim(&rest));
            }
        }
        i = i + 1;
    }
    0
}

/// The first index from `i` on at which bytes occur in others.
pub open spec fn bytes_from(hay: Seq<u8>, needle: Seq<u8>, i: int) -> Option<int>
    decreases hay.len() - i + 1,
{
    if i < 0 || i + needle.len() > hay.len() {
        None
    } else if hay.subrange(i, i + needle.len()) == needle {
        Some(i)
    } else {
        bytes_from(hay, needle, i + 1)
    }
}

fn same_bytes_at(hay: &Vec<u8>, needle: &Vec<u8>, i: usize) -> (r: bool)
    requires
        i + needle@.len() <= hay@.len(),
    ensures
        r == (hay@.subrange(i as int, i + needle@.len()) == needle@),
{
    let n: usize = hay.len();
    let mut j: usize = 0;
    while j < needle.len()
        invariant
            j <= needle@.len(),
            n == hay@.len(),
            i + needle@.len() <= n,
            forall|k: int| 0 <= k < j ==> hay@[i + k] == needle@[k],
        decreases needle.len() - j,
    {
        if hay[i + j] != needle[j] {
            proof {
                assert(hay@.subrange(i as int, i + needle@.len())[j as int] != needle@[j as int]);
            }
            return false;
        }
        j = j + 1;
    }
    proof {
        assert(hay@.subrange(i as int, i + needle@.len()) =~= needle@);
    }
    true
}

/// The first place at which bytes occur in others. Nothing occurs nowhere.
pub fn find_subseq(hay: &Vec<u8>, needle: &Vec<u8>) -> (r: Option<usize>)
    ensures
        match r {
            Some(i) => needle@.len() > 0 && bytes_from(hay@, needle@, 0) == Some(i as int) && i
                + needle@.len() <= hay@.len(),
            None => needle@.len() == 0 || bytes_from(hay@, needle@, 0) is None,
        },
{
    let n: usize = hay.len();
    let m: usize = needle.len();
    if m == 0 || n < m {
        return None;
    }
    let mut i: usize = 0;
    while i <= n - m
        invariant
            n == hay@.len(),
            m == needle@.len(),
            0 < m <= n,
            i <= n - m + 1,
            bytes_from(hay@, needle@, 0) == bytes_from(hay@, needle@, i as int),
        decreases n + 1 - i,
    {
        if same_bytes_at(hay, needle, i) {
            return Some(i);
        }
        i = i + 1;
    }
    None
}

/// What the bytes that have come in are: not yet a request, too many to be one, or one whose head ends
/// at the first index and whose body ends at the second.
#[derive(Debug, PartialEq, Eq, Structural)]
pub enum Frame {
    More,
    Drop,
    Ready(usize, usize),
}

/// The blank line that ends a head.
pub open spec fn blank_line() -> Seq<u8> {
    seq![13u8, 10u8, 13u8, 10u8]
}

/// What the bytes that have come in are.
pub open spec fn framed(buf: Seq<u8>) -> Frame {
    match bytes_from(buf, blank_line(), 0) {
        None => if buf.len() > 0x10_0000 {
            Frame::Drop
        } else {
            Frame::More
        },
        Some(pos) => {
            let head = pos + 4;
            let need = head + length_in(lines_of(lossy_text(buf.subrange(0, head))), 0);
            if need > usize::MAX {
                Frame::Drop
            } else if buf.len() < need {
                Frame::More
            } else {
                Frame::Ready(head as usize, need as usize)
            }
        },
    }
}

/// The bytes from one index up to another.
fn bytes_between(b: &Vec<u8>, from: usize, to: usize) -> (r: Vec<u8>)
    requires
        from <= to <= b@.len(),
    ensures
        r@ == b@.subrange(from as int, to as int),
{
    let mut out: Vec<u8> = Vec::new();
    let mut i: usize = from;
    while i < to
        invariant
            from <= i <= to <= b@.len(),
            out@ == b@.subrange(from as int, i as int),
        decreases to - i,
    {
        out.push(b[i]);
        i = i + 1;
        proof {
            assert(out@ =~= b@.subrange(from as int, i as int));
        }
    }
    out
}

proof fn lemma_bytes_from(hay: Seq<u8>, needle: Seq<u8>, i: int)
    ensures
        bytes_from(hay, needle, i) matches Some(k) ==> i <= k && 0 <= k && k + needle.len()
            <= hay.len(),
    decreases hay.len() - i + 1,
{
    if !(i < 0 || i + needle.len() > hay.len()) && hay.subrange(i, i + needle.len()) != needle {
        lemma_bytes_from(hay, needle, i + 1);
    }
}

/// What the bytes that have come in are. A head ends with a blank line; a body is as long as the head
/// declares; what is longer than a mebibyte without a blank line is no request.
pub fn frame(buf: &Vec<u8>) -> (r: Frame)
    ensures
        r == framed(buf@),
{
    let mut blank: Vec<u8> = Vec::new();
    blank.push(13);
    blank.push(10);
    blank.push(13);
    blank.push(10);
    proof {
        assert(blank@ =~= blank_line());
        lemma_bytes_from(buf@, blank_line(), 0);
    }
    let n: usize = buf.len();
    match find_subseq(buf, &blank) {
        None => if n > 0x10_0000 {
            Frame::Drop
        } else {
            Frame::More
        },
        Some(pos) => {
            let head: usize = pos + 4;
            let bytes = bytes_between(buf, 0, head);
            let len: usize = content_length(&lossy(bytes.as_slice()));
            if len > usize::MAX - head {
                Frame::Drop
            } else if n < head + len {
                Frame::More
            } else {
                Frame::Ready(head, head + len)
            }
        },
    }
}

/// A request: its head, from its first line to the blank line, and its body.
#[derive(Debug)]
pub struct Request {
    pub head: String,
    pub body: String,
}

/// Takes the request that a frame found off the bytes that have come in.
pub fn take_request(buf: &mut Vec<u8>, head: usize, need: usize) -> (r: Request)
    requires
        head <= need <= old(buf)@.len(),
    ensures
        r.head@ == lossy_text(old(buf)@.subrange(0, head as int)),
        r.body@ == lossy_text(old(buf)@.subrange(head as int, need as int)),
        final(buf)@ == old(buf)@.subrange(need as int, old(buf)@.len() as int),
{
    let n: usize = buf.len();
    let first = bytes_between(buf, 0, head);
    let body = bytes_between(buf, head, need);
    let rest = bytes_between(buf, need, n);
    *buf = rest;
    Request { head: lossy(first.as_slice()), body: lossy(body.as_slice()) }
}

/// The words of the first line of a request.
pub open spec fn first_words(head: Seq<char>) -> Seq<Seq<char>> {
    let ls = lines_of(head);
    if ls.len() > 0 {
        words(ls[0])
    } else {
        words(""@)
    }
}

/// The word at an index, or another text where there is none.
pub open spec fn word_or(ws: Seq<Seq<char>>, i: int, other: Seq<char>) -> Seq<char> {
    if 0 <= i < ws.len() {
        ws[i]
    } else {
        other
    }
}

fn first_line_words(head: &str) -> (r: Parts)
    ensures
        r@ == first_words(head@),
{
    let ls = split_lines(head);
    if ls.len() > 0 {
        split_words(ls.get(0))
    } else {
        split_words("")
    }
}

fn word_at(ws: &Parts, i: usize, other: &str) -> (r: String)
    ensures
        r@ == word_or(ws@, i as int, other@),
{
    if i < ws.len() {
        ws.get(i).clone()
    } else {
        other.to_owned()
    }
}

/// A header's value in lower case; the empty text where there is none.
pub open spec fn connection_text(head: Seq<char>) -> Seq<char> {
    match header_in(lines_of(head), 0, "connection"@) {
        Some(v) => lower_ascii_text(v),
        None => lower_ascii_text(""@),
    }
}

/// Whether a client wants its connection kept: in HTTP/1.0 where it says so, else unless it says not.
pub open spec fn wants_keep(head: Seq<char>) -> bool {
    if same_letters(word_or(first_words(head), 2, "HTTP/1.1"@), "HTTP/1.0"@) {
        find_from(connection_text(head), "keep-alive"@, 0) is Some
    } else {
        find_from(connection_text(head), "close"@, 0) is None
    }
}

fn holds(s: &str, p: &str) -> (r: bool)
    ensures
        r == (find_from(s@, p@, 0) is Some),
{
    let b = chars_of(s);
    let q = chars_of(p);
    find_chars(&b, &q, 0).is_some()
}

fn keeps(head: &str, version: &str) -> (r: bool)
    requires
        version@ == word_or(first_words(head@), 2, "HTTP/1.1"@),
    ensures
        r == wants_keep(head@),
{
    let conn = match header_value(head, "connection") {
        Some(v) => lower_letters(&v),
        None => lower_letters(""),
    };
    if same(&lower_letters(version), &lower_letters("HTTP/1.0")) {
        holds(&conn, "keep-alive")
    } else {
        !holds(&conn, "close")
    }
}

/// Whether a request must show the token against forged requests: a call of a function.
pub open spec fn needs_token(method: Seq<char>, path: Seq<char>) -> bool {
    method == "POST"@ && has_prefix(path, "/__xeres/"@) && !has_prefix(path, "/__xeres/sync/"@)
}

/// Whether a request shows the token: the cookie and the header of its head hold the same, which is not
/// empty.
pub open spec fn shows_token(head: Seq<char>) -> bool {
    match (
        cookie_in(lines_of(head), 0, "xeres_csrf"@),
        header_in(lines_of(head), 0, "x-csrf-token"@),
    ) {
        (Some(c), Some(h)) => c.len() > 0 && c == h,
        _ => false,
    }
}

/// Where a request goes.
#[derive(Debug)]
pub enum Route {
    /// Refused: a call of a function without the token.
    Forbidden,
    /// To a synced collection.
    Sync(String),
    /// To a function, by the path.
    Rpc(String),
    /// To a file, by the path.
    File(String),
}

/// Where a request goes, by its texts.
pub enum RouteView {
    Forbidden,
    Sync(Seq<char>),
    Rpc(Seq<char>),
    File(Seq<char>),
}

impl View for Route {
    type V = RouteView;

    open spec fn view(&self) -> RouteView {
        match *self {
            Route::Forbidden => RouteView::Forbidden,
            Route::Sync(c) => RouteView::Sync(c@),
            Route::Rpc(p) => RouteView::Rpc(p@),
            Route::File(p) => RouteView::File(p@),
        }
    }
}

/// Where a method and a path go.
pub open spec fn routed(method: Seq<char>, path: Seq<char>) -> RouteView {
    if method == "POST"@ && has_prefix(path, "/__xeres/sync/"@) {
        RouteView::Sync(path.subrange("/__xeres/sync/"@.len() as int, path.len() as int))
    } else if method == "POST"@ && has_prefix(path, "/__xeres/"@) {
        RouteView::Rpc(path)
    } else {
        RouteView::File(path)
    }
}

/// What is to be done with a request: where it goes, whether the connection is kept after it, and
/// whether it lacks the cookie with the token.
#[derive(Debug)]
pub struct Decision {
    pub route: Route,
    pub keep: bool,
    pub new_token: bool,
}

/// Where a request goes, by its head: nowhere where it must show the token and does not.
pub open spec fn request_route(head: Seq<char>) -> RouteView {
    let ws = first_words(head);
    let method = word_or(ws, 0, ""@);
    let path = word_or(ws, 1, "/"@);
    if needs_token(method, path) && !shows_token(head) {
        RouteView::Forbidden
    } else {
        routed(method, path)
    }
}

/// Where a method and a path go.
pub fn dispatch(method: &str, path: &str) -> (r: Route)
    ensures
        r@ == routed(method@, path@),
{
    if same(method, "POST") && starts_with(path, "/__xeres/sync/") {
        let b = chars_of(path);
        let k: usize = "/__xeres/sync/".unicode_len();
        return Route::Sync(slice_text(&b, k, b.len()));
    }
    if same(method, "POST") && starts_with(path, "/__xeres/") {
        return Route::Rpc(path.to_owned());
    }
    Route::File(path.to_owned())
}

/// What is to be done with a request, the `served`th of its connection. A connection is kept for at
/// most 1023 requests after which the client wants it kept.
pub fn decide(req: &Request, served: u32) -> (r: Decision)
    ensures
        r.route@ == request_route(req.head@),
        r.keep == (wants_keep(req.head@) && served < 1024),
        r.new_token == (cookie_in(lines_of(req.head@), 0, "xeres_csrf"@) is None),
{
    let ws = first_line_words(&req.head);
    let method = word_at(&ws, 0, "");
    let path = word_at(&ws, 1, "/");
    let version = word_at(&ws, 2, "HTTP/1.1");
    let keep: bool = keeps(&req.head, &version) && served < 1024;
    let cookie = cookie_value(&req.head, "xeres_csrf");
    let guarded: bool = same(&method, "POST") && starts_with(&path, "/__xeres/") && !starts_with(
        &path,
        "/__xeres/sync/",
    );
    let new_token: bool = cookie.is_none();
    if guarded {
        let header = header_value(&req.head, "x-csrf-token");
        let ok: bool = match (&cookie, &header) {
            (Some(c), Some(h)) => c.as_str().unicode_len() > 0 && same(c, h),
            _ => false,
        };
        if !ok {
            return Decision { route: Route::Forbidden, keep, new_token };
        }
    }
    Decision { route: dispatch(&method, &path), keep, new_token }
}

/// A path without the slashes in front of it.
pub open spec fn without_slashes(p: Seq<char>) -> Seq<char>
    decreases p.len(),
{
    if p.len() > 0 && p[0] == '/' {
        without_slashes(p.subrange(1, p.len() as int))
    } else {
        p
    }
}

/// The file that a path stands for, below the directory of static files.
pub open spec fn relative_of(path: Seq<char>) -> Seq<char> {
    if path == "/"@ {
        "index.html"@
    } else {
        without_slashes(path)
    }
}

/// The content type of a file, by its name.
pub open spec fn type_of_file(full: Seq<char>) -> Seq<char> {
    if has_suffix(full, ".js"@) {
        "text/javascript"@
    } else if has_suffix(full, ".css"@) {
        "text/css"@
    } else {
        "text/html; charset=utf-8"@
    }
}

/// The file that a path stands for.
#[derive(Debug)]
pub struct StaticFile {
    pub full: String,
    pub ctype: &'static str,
    /// Whether the start page stands in for a missing file: the path is one of the client's.
    pub fallback: bool,
}

fn strip_slashes(p: &str) -> (r: String)
    ensures
        r@ == without_slashes(p@),
{
    let b = chars_of(p);
    let n: usize = b.len();
    let mut i: usize = 0;
    proof {
        assert(b@.subrange(0, n as int) =~= p@);
    }
    while i < n && b[i] == '/'
        invariant
            i <= n,
            n == b@.len(),
            without_slashes(p@) == without_slashes(b@.subrange(i as int, n as int)),
        decreases n - i,
    {
        proof {
            let t = b@.subrange(i as int, n as int);
            assert(t.subrange(1, t.len() as int) =~= b@.subrange(i + 1, n as int));
        }
        i = i + 1;
    }
    proof {
        let t = b@.subrange(i as int, n as int);
        if t.len() > 0 {
            assert(t[0] == b@[i as int]);
        }
    }
    slice_text(&b, i, n)
}

/// The file that a path stands for, its content type, and whether the start page stands in for it.
pub fn static_file(path: &str) -> (r: StaticFile)
    ensures
        r.full@ == "static/"@ + relative_of(path@),
        r.ctype@ == type_of_file("static/"@ + relative_of(path@)),
        r.fallback == (find_char(relative_of(path@), '.', 0) is None),
{
    let rel = if same(path, "/") {
        "index.html".to_owned()
    } else {
        strip_slashes(path)
    };
    let full = cat2("static/", &rel);
    let ctype = if ends_with(&full, ".js") {
        "text/javascript"
    } else if ends_with(&full, ".css") {
        "text/css"
    } else {
        "text/html; charset=utf-8"
    };
    let b = chars_of(&rel);
    let fallback: bool = find_one(&b, '.', 0).is_none();
    StaticFile { full, ctype, fallback }
}

/// A response: its status, its content type and its payload.
#[derive(Debug)]
pub struct Response {
    pub code: u16,
    pub ctype: &'static str,
    pub payload: String,
}

/// The response to a request for a file: the file, or the start page in its stead, or not found.
pub fn serve_static(file: &StaticFile, content: Option<String>, index: Option<String>) -> (r: Response)
    ensures
        match content {
            Some(c) => r.code == 200 && r.ctype@ == file.ctype@ && r.payload@ == c@,
            None => match index {
                Some(c) => if file.fallback {
                    r.code == 200 && r.ctype@ == "text/html; charset=utf-8"@ && r.payload@ == c@
                } else {
                    r.code == 404 && r.ctype@ == "text/html"@ && r.payload@
                        == "<h1>404 - not found</h1>"@
                },
                None => r.code == 404 && r.ctype@ == "text/html"@ && r.payload@
                    == "<h1>404 - not found</h1>"@,
            },
        },
{
    match content {
        Some(c) => Response { code: 200, ctype: file.ctype, payload: c },
        None => {
            if file.fallback {
                if let Some(c) = index {
                    return Response {
                        code: 200,
                        ctype: "text/html; charset=utf-8",
                        payload: c,
                    };
                }
            }
            Response {
                code: 404,
                ctype: "text/html",
                payload: "<h1>404 - not found</h1>".to_owned(),
            }
        },
    }
}

/// What a connection's header says of it.
pub open spec fn connection_word(keep: bool) -> Seq<char> {
    if keep {
        "keep-alive"@
    } else {
        "close"@
    }
}

/// The text of a response. The security headers stand in every one.
pub open spec fn response_out(
    code: nat,
    ctype: Seq<char>,
    payload: Seq<char>,
    cookies: Seq<char>,
    keep: bool,
) -> Seq<char> {
    if code == 302 {
        "HTTP/1.1 302 Found\r\nLocation: "@ + payload + "\r\n"@ + SECURITY_HEADERS@ + cookies
            + "Content-Length: 0\r\nConnection: "@ + connection_word(keep) + "\r\n\r\n"@
    } else {
        "HTTP/1.1 "@ + nat_text(code) + " "@ + reason_text(code) + "\r\nContent-Type: "@ + ctype
            + "\r\n"@ + SECURITY_HEADERS@ + cookies + "Content-Length: "@ + nat_text(
            encode_utf8(payload).len() as usize as nat,
        ) + "\r\nConnection: "@ + (connection_word(keep) + "\r\n\r\n"@ + payload)
    }
}

/// The text of a response.
pub fn response_text(code: u16, ctype: &str, payload: &str, cookies: &str, keep: bool) -> (r: String)
    ensures
        r@ == response_out(code as nat, ctype@, payload@, cookies@, keep),
{
    let conn = if keep {
        "keep-alive"
    } else {
        "close"
    };
    if code == 302 {
        return cat8(
            "HTTP/1.1 302 Found\r\nLocation: ",
            payload,
            "\r\n",
            SECURITY_HEADERS,
            cookies,
            "Content-Length: 0\r\nConnection: ",
            conn,
            "\r\n\r\n",
        );
    }
    let n: usize = payload.len();
    cat13(
        "HTTP/1.1 ",
        &u128_text(code as u128),
        " ",
        reason(code),
        "\r\nContent-Type: ",
        ctype,
        "\r\n",
        SECURITY_HEADERS,
        cookies,
        "Content-Length: ",
        &usize_text(n),
        "\r\nConnection: ",
        &cat3(conn, "\r\n\r\n", payload),
    )
}

/// The response to a call of a function without the token.
pub fn forbidden() -> (r: Response)
    ensures
        r.code == 403,
        r.ctype@ == "application/json"@,
        r.payload@ == "{\"error\":\"csrf token missing or invalid\"}"@,
{
    Response {
        code: 403,
        ctype: "application/json",
        payload: "{\"error\":\"csrf token missing or invalid\"}".to_owned(),
    }
}

/// A number as hexadecimal text of a fixed width.
pub open spec fn hex_fixed(n: nat, width: nat) -> Seq<char>
    decreases width,
{
    if width == 0 {
        Seq::empty()
    } else {
        hex_fixed(n / 16, (width - 1) as nat).push(hex_digit((n % 16) as int))
    }
}

fn hex_wide(n: u64, width: u32) -> (r: String)
    ensures
        r@ == hex_fixed(n as nat, width as nat),
    decreases width,
{
    if width == 0 {
        String::new()
    } else {
        let mut out = hex_wide(n / 16, width - 1);
        let d: u8 = (n % 16) as u8;
        out.push(
            if d < 10 {
                (48u8 + d) as char
            } else {
                (87u8 + d) as char
            },
        );
        out
    }
}

/// The token that two random numbers make.
pub open spec fn token_of_numbers(a: nat, b: nat) -> Seq<char> {
    hex_fixed(a, 16) + hex_fixed(b, 16)
}

/// The token that two random numbers make.
pub fn rand_token(a: u64, b: u64) -> (r: String)
    ensures
        r@ == token_of_numbers(a as nat, b as nat),
{
    cat2(&hex_wide(a, 16), &hex_wide(b, 16))
}

/// The header that hands a client its token.
pub fn token_cookie(token: &str) -> (r: String)
    ensures
        r@ == "Set-Cookie: xeres_csrf="@ + token@ + "; Secure; SameSite=Strict; Path=/\r\n"@,
{
    cat3("Set-Cookie: xeres_csrf=", token, "; Secure; SameSite=Strict; Path=/\r\n")
}

/// A call of a function whose head does not show the token is refused, whatever its body holds.
pub proof fn law_forged_call_is_refused(head: Seq<char>)
    requires
        needs_token(word_or(first_words(head), 0, ""@), word_or(first_words(head), 1, "/"@)),
        !shows_token(head),
    ensures
        request_route(head) is Forbidden,
{
}

} // verus!
