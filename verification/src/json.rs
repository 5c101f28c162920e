//! A small JSON reader and writer, and the decoder from JSON to run-time values.
use vstd::prelude::*;
use vstd::string::*;

use crate::ast::{find_model, model_index, PropertyNode, XeresProgram};
use crate::decode::{enum_named, is_enum};
use crate::num::int_text;
use crate::num::i64_text;
use crate::strmap::StrMap;
use crate::text::{cat3, chars_of, join_text, same, slice_text, Parts};
use crate::types::{generic_inner, generic_inner_spec};
use crate::unicode::char_is_space;
use crate::value::{
    copy_number, escape_text, escaped, json_str, json_text, list_view, push_field, push_value, record_view, Number,
    NumberView, Value, ValueView,
};

verus! {

/// A JSON value. A number is held as it was written.
#[derive(Debug)]
pub enum J {
    Null,
    Bool(bool),
    Num(String),
    Str(String),
    Arr(Vec<J>),
    Obj(Vec<(String, J)>),
}

/// A JSON value, by its texts.
pub enum JView {
    Null,
    Bool(bool),
    Num(Seq<char>),
    Str(Seq<char>),
    Arr(Seq<JView>),
    Obj(Seq<(Seq<char>, JView)>),
}

/// A JSON value, by its texts.
pub open spec fn json_view(j: J) -> JView
    decreases j, 0int,
{
    match j {
        J::Null => JView::Null,
        J::Bool(b) => JView::Bool(b),
        J::Num(t) => JView::Num(t@),
        J::Str(s) => JView::Str(s@),
        J::Arr(items) => JView::Arr(jsons_view(items@, items@.len() as int)),
        J::Obj(members) => JView::Obj(members_view(members@, members@.len() as int)),
    }
}

/// The first `n` JSON values, by their texts.
pub open spec fn jsons_view(js: Seq<J>, n: int) -> Seq<JView>
    decreases js, n,
{
    if n <= 0 || n > js.len() {
        Seq::empty()
    } else {
        jsons_view(js, n - 1).push(json_view(js[n - 1]))
    }
}

/// The first `n` members of an object, by their texts.
pub open spec fn members_view(ms: Seq<(String, J)>, n: int) -> Seq<(Seq<char>, JView)>
    decreases ms, n,
{
    if n <= 0 || n > ms.len() {
        Seq::empty()
    } else {
        members_view(ms, n - 1).push((ms[n - 1].0@, json_view(ms[n - 1].1)))
    }
}

impl View for J {
    type V = JView;

    open spec fn view(&self) -> JView {
        json_view(*self)
    }
}

pub proof fn lemma_jsons_view(js: Seq<J>, n: int)
    requires
        0 <= n <= js.len(),
    ensures
        jsons_view(js, n).len() == n,
        forall|i: int| 0 <= i < n ==> #[trigger] jsons_view(js, n)[i] == json_view(js[i]),
    decreases n,
{
    if n > 0 {
        lemma_jsons_view(js, n - 1);
    }
}

proof fn lemma_members_view(ms: Seq<(String, J)>, n: int)
    requires
        0 <= n <= ms.len(),
    ensures
        members_view(ms, n).len() == n,
        forall|i: int|
            0 <= i < n ==> #[trigger] members_view(ms, n)[i] == (ms[i].0@, json_view(ms[i].1)),
    decreases n,
{
    if n > 0 {
        lemma_members_view(ms, n - 1);
    }
}

proof fn lemma_jsons_prefix(a: Seq<J>, b: Seq<J>, n: int)
    requires
        0 <= n <= a.len(),
        n <= b.len(),
        forall|i: int| 0 <= i < n ==> a[i] == b[i],
    ensures
        jsons_view(a, n) == jsons_view(b, n),
    decreases n,
{
    if n > 0 {
        lemma_jsons_prefix(a, b, n - 1);
    }
}

proof fn lemma_members_prefix(a: Seq<(String, J)>, b: Seq<(String, J)>, n: int)
    requires
        0 <= n <= a.len(),
        n <= b.len(),
        forall|i: int| 0 <= i < n ==> a[i] == b[i],
    ensures
        members_view(a, n) == members_view(b, n),
    decreases n,
{
    if n > 0 {
        lemma_members_prefix(a, b, n - 1);
    }
}

/// The index of the first of the first `n` members with this key.
pub open spec fn key_index(ms: Seq<(Seq<char>, JView)>, n: int, k: Seq<char>) -> Option<int>
    decreases n,
{
    if n <= 0 || n > ms.len() {
        None
    } else {
        match key_index(ms, n - 1, k) {
            Some(i) => Some(i),
            None => if ms[n - 1].0 == k {
                Some(n - 1)
            } else {
                None
            },
        }
    }
}

proof fn lemma_key_index(ms: Seq<(Seq<char>, JView)>, n: int, k: Seq<char>)
    requires
        n <= ms.len(),
    ensures
        match key_index(ms, n, k) {
            Some(i) => 0 <= i < n && ms[i].0 == k,
            None => true,
        },
    decreases n,
{
    if n > 0 {
        lemma_key_index(ms, n - 1, k);
    }
}

/// The first member of an object with this key.
pub open spec fn member(j: JView, k: Seq<char>) -> Option<JView> {
    match j {
        JView::Obj(ms) => match key_index(ms, ms.len() as int, k) {
            Some(i) => Some(ms[i].1),
            None => None,
        },
        _ => None,
    }
}

fn find_key(ms: &Vec<(String, J)>, k: &str) -> (r: Option<usize>)
    ensures
        match r {
            Some(i) => i < ms@.len() && key_index(
                members_view(ms@, ms@.len() as int),
                ms@.len() as int,
                k@,
            ) == Some(i as int),
            None => key_index(members_view(ms@, ms@.len() as int), ms@.len() as int, k@) is None,
        },
{
    let ghost vs = members_view(ms@, ms@.len() as int);
    proof {
        lemma_members_view(ms@, ms@.len() as int);
    }
    let mut found: Option<usize> = None;
    let mut i: usize = 0;
    while i < ms.len()
        invariant
            i <= ms@.len(),
            vs.len() == ms@.len(),
            forall|j: int|
                0 <= j < ms@.len() ==> #[trigger] vs[j] == (ms@[j].0@, json_view(ms@[j].1)),
            match found {
                Some(x) => x < i && key_index(vs, i as int, k@) == Some(x as int),
                None => key_index(vs, i as int, k@) is None,
            },
        decreases ms.len() - i,
    {
        if found.is_none() && same(&ms[i].0, k) {
            found = Some(i);
        }
        i = i + 1;
    }
    found
}

/// The zero.
pub open spec fn zero_number() -> NumberView {
    NumberView { text: "0"@, debug: "0.0"@, whole: 0, integral: true }
}

/// The number that a written number stands for, where it is known; else zero.
pub open spec fn number_for(nums: Map<Seq<char>, NumberView>, t: Seq<char>) -> NumberView {
    if nums.dom().contains(t) {
        nums[t]
    } else {
        zero_number()
    }
}

fn number_of(nums: &StrMap<Number>, t: &str) -> (r: Number)
    ensures
        r@ == number_for(nums@, t@),
{
    match nums.get(t) {
        Some(n) => copy_number(n),
        None => Number {
            text: "0".to_owned(),
            debug: "0.0".to_owned(),
            whole: 0,
            integral: true,
        },
    }
}

/// The number that a JSON value holds; zero where it holds none.
pub open spec fn held_number(j: JView, nums: Map<Seq<char>, NumberView>) -> NumberView {
    match j {
        JView::Num(t) => number_for(nums, t),
        _ => zero_number(),
    }
}

/// The text that a JSON value holds; the empty one where it holds none.
pub open spec fn held_text(j: JView) -> Seq<char> {
    match j {
        JView::Str(s) => s,
        _ => ""@,
    }
}

/// A JSON value as text.
pub open spec fn json_out(j: JView, nums: Map<Seq<char>, NumberView>) -> Seq<char>
    decreases j, 0int,
{
    match j {
        JView::Null => "null"@,
        JView::Bool(b) => if b {
            "true"@
        } else {
            "false"@
        },
        JView::Num(t) => if number_for(nums, t).integral {
            int_text(number_for(nums, t).whole)
        } else {
            number_for(nums, t).text
        },
        JView::Str(s) => json_text(s),
        JView::Arr(items) => "["@ + join_text(json_outs(items, items.len() as int, nums), ","@)
            + "]"@,
        JView::Obj(ms) => "{"@ + join_text(member_outs(ms, ms.len() as int, nums), ","@) + "}"@,
    }
}

/// The first `n` JSON values as texts.
pub open spec fn json_outs(
    js: Seq<JView>,
    n: int,
    nums: Map<Seq<char>, NumberView>,
) -> Seq<Seq<char>>
    decreases js, n,
{
    if n <= 0 || n > js.len() {
        Seq::empty()
    } else {
        json_outs(js, n - 1, nums).push(json_out(js[n - 1], nums))
    }
}

/// The first `n` members of an object as texts.
pub open spec fn member_outs(
    ms: Seq<(Seq<char>, JView)>,
    n: int,
    nums: Map<Seq<char>, NumberView>,
) -> Seq<Seq<char>>
    decreases ms, n,
{
    if n <= 0 || n > ms.len() {
        Seq::empty()
    } else {
        member_outs(ms, n - 1, nums).push(
            json_text(ms[n - 1].0) + ":"@ + json_out(ms[n - 1].1, nums),
        )
    }
}

fn items_json(js: &Vec<J>, nums: &StrMap<Number>) -> (r: Parts)
    ensures
        r@ == json_outs(jsons_view(js@, js@.len() as int), js@.len() as int, nums@),
    decreases js, 0int,
{
    let ghost vs = jsons_view(js@, js@.len() as int);
    proof {
        lemma_jsons_view(js@, js@.len() as int);
    }
    let mut out = Parts::new();
    let mut i: usize = 0;
    while i < js.len()
        invariant
            i <= js@.len(),
            vs.len() == js@.len(),
            forall|j: int| 0 <= j < js@.len() ==> #[trigger] vs[j] == json_view(js@[j]),
            out@ == json_outs(vs, i as int, nums@),
        decreases js.len() - i,
    {
        let x = js[i].to_json(nums);
        out.push(x);
        i = i + 1;
    }
    out
}

fn members_json(ms: &Vec<(String, J)>, nums: &StrMap<Number>) -> (r: Parts)
    ensures
        r@ == member_outs(members_view(ms@, ms@.len() as int), ms@.len() as int, nums@),
    decreases ms, 0int,
{
    let ghost vs = members_view(ms@, ms@.len() as int);
    proof {
        lemma_members_view(ms@, ms@.len() as int);
    }
    let mut out = Parts::new();
    let mut i: usize = 0;
    while i < ms.len()
        invariant
            i <= ms@.len(),
            vs.len() == ms@.len(),
            forall|j: int|
                0 <= j < ms@.len() ==> #[trigger] vs[j] == (ms@[j].0@, json_view(ms@[j].1)),
            out@ == member_outs(vs, i as int, nums@),
        decreases ms.len() - i,
    {
        let x = ms[i].1.to_json(nums);
        out.push(cat3(&json_str(&ms[i].0), ":", &x));
        i = i + 1;
    }
    out
}

impl J {
    /// The first member of an object with this key.
    pub fn get(&self, k: &str) -> (r: Option<&J>)
        ensures
            match r {
                Some(v) => member(self@, k@) == Some(v@),
                None => member(self@, k@) is None,
            },
    {
        match self {
            J::Obj(ms) => {
                proof {
                    lemma_members_view(ms@, ms@.len() as int);
                }
                match find_key(ms, k) {
                    Some(i) => Some(&ms[i].1),
                    None => None,
                }
            },
            _ => None,
        }
    }

    /// The item of an array at this index.
    pub fn idx(&self, i: usize) -> (r: Option<&J>)
        ensures
            match r {
                Some(v) => self@ is Arr && (i as int) < self@->Arr_0.len() && self@->Arr_0[i as int]
                    == v@,
                None => !(self@ is Arr) || i >= self@->Arr_0.len(),
            },
    {
        match self {
            J::Arr(items) => {
                proof {
                    lemma_jsons_view(items@, items@.len() as int);
                }
                if i < items.len() {
                    Some(&items[i])
                } else {
                    None
                }
            },
            _ => None,
        }
    }

    /// The text of a JSON text.
    pub fn str(&self) -> (r: Option<&str>)
        ensures
            match r {
                Some(s) => self@ == JView::Str(s@),
                None => !(self@ is Str),
            },
    {
        match self {
            J::Str(s) => Some(s.as_str()),
            _ => None,
        }
    }

    /// The text of a JSON text; the empty one for any other value.
    pub fn as_string(&self) -> (r: String)
        ensures
            r@ == held_text(self@),
    {
        match self {
            J::Str(s) => s.clone(),
            _ => "".to_owned(),
        }
    }

    /// The number of a JSON number; zero for any other value.
    pub fn as_number(&self, nums: &StrMap<Number>) -> (r: Number)
        ensures
            r@ == held_number(self@, nums@),
    {
        match self {
            J::Num(t) => number_of(nums, t),
            _ => Number { text: "0".to_owned(), debug: "0.0".to_owned(), whole: 0, integral: true },
        }
    }

    /// What is left of a JSON number as an integer; zero for any other value.
    pub fn as_i64(&self, nums: &StrMap<Number>) -> (r: i64)
        ensures
            r == held_number(self@, nums@).whole,
    {
        self.as_number(nums).whole
    }

    /// Whether this is the JSON `true`.
    pub fn as_bool(&self) -> (r: bool)
        ensures
            r == (self@ == JView::Bool(true)),
    {
        match self {
            J::Bool(b) => *b,
            _ => false,
        }
    }

    /// A JSON value as text.
    pub fn to_json(&self, nums: &StrMap<Number>) -> (r: String)
        ensures
            r@ == json_out(self@, nums@),
        decreases self, 0int,
    {
        match self {
            J::Null => "null".to_owned(),
            J::Bool(b) => if *b {
                "true".to_owned()
            } else {
                "false".to_owned()
            },
            J::Num(t) => {
                let n = number_of(nums, t);
                if n.integral {
                    i64_text(n.whole)
                } else {
                    n.text
                }
            },
            J::Str(s) => json_str(s),
            J::Arr(items) => {
                let parts = items_json(items, nums);
                proof {
                    lemma_jsons_view(items@, items@.len() as int);
                }
                cat3("[", &parts.join(","), "]")
            },
            J::Obj(ms) => {
                let parts = members_json(ms, nums);
                proof {
                    lemma_members_view(ms@, ms@.len() as int);
                }
                cat3("{", &parts.join(","), "}")
            },
        }
    }
}

/// The first index from `i` on that holds no white space.
pub open spec fn skip(b: Seq<char>, i: int) -> int
    decreases b.len() - i,
{
    if 0 <= i < b.len() && char_is_space(b[i]) {
        skip(b, i + 1)
    } else {
        i
    }
}

/// What an escaped character stands for.
pub open spec fn unescaped(c: char) -> char {
    if c == 'n' {
        '\n'
    } else if c == 't' {
        '\t'
    } else if c == 'r' {
        '\r'
    } else {
        c
    }
}

/// The characters of a text literal from `i` up to its closing quote, and where that stands.
pub open spec fn body_at(b: Seq<char>, i: int) -> (Seq<char>, int)
    decreases b.len() - i,
{
    if i < 0 || i >= b.len() || b[i] == '"' {
        (Seq::empty(), i)
    } else if b[i] == '\\' && i + 1 < b.len() {
        let rest = body_at(b, i + 2);
        (seq![unescaped(b[i + 1])] + rest.0, rest.1)
    } else {
        let rest = body_at(b, i + 1);
        (seq![b[i]] + rest.0, rest.1)
    }
}

/// One past `i`, where the character `c` stands there; else `i`.
pub open spec fn past(b: Seq<char>, i: int, c: char) -> int {
    if 0 <= i < b.len() && b[i] == c {
        i + 1
    } else {
        i
    }
}

/// The text literal at `i`, and where it ends. A missing quote is let pass.
pub open spec fn text_at(b: Seq<char>, i: int) -> (Seq<char>, int) {
    let body = body_at(b, past(b, i, '"'));
    (
        body.0,
        if body.1 < b.len() {
            body.1 + 1
        } else {
            body.1
        },
    )
}

/// Whether a character can stand in a number.
pub open spec fn in_number(c: char) -> bool {
    ('0' <= c <= '9') || c == '-' || c == '+' || c == '.' || c == 'e' || c == 'E'
}

/// The first index from `i` on that holds no character of a number.
pub open spec fn number_end(b: Seq<char>, i: int) -> int
    decreases b.len() - i,
{
    if 0 <= i < b.len() && in_number(b[i]) {
        number_end(b, i + 1)
    } else {
        i
    }
}

/// `k` characters on, at most to the end.
pub open spec fn ahead(b: Seq<char>, i: int, k: int) -> int {
    if i + k <= b.len() {
        i + k
    } else {
        b.len() as int
    }
}

pub proof fn lemma_skip(b: Seq<char>, i: int)
    requires
        0 <= i <= b.len(),
    ensures
        i <= skip(b, i) <= b.len(),
    decreases b.len() - i,
{
    if i < b.len() && char_is_space(b[i]) {
        lemma_skip(b, i + 1);
    }
}

proof fn lemma_body_at(b: Seq<char>, i: int)
    requires
        0 <= i <= b.len(),
    ensures
        i <= body_at(b, i).1 <= b.len(),
        i < b.len() && b[i] != '"' ==> i < body_at(b, i).1,
        body_at(b, i).1 < b.len() ==> b[body_at(b, i).1] == '"',
    decreases b.len() - i,
{
    if i < b.len() && b[i] != '"' {
        if b[i] == '\\' && i + 1 < b.len() {
            lemma_body_at(b, i + 2);
        } else {
            lemma_body_at(b, i + 1);
        }
    }
}

proof fn lemma_text_at(b: Seq<char>, i: int)
    requires
        0 <= i <= b.len(),
    ensures
        i <= text_at(b, i).1 <= b.len(),
        i < b.len() ==> i < text_at(b, i).1,
{
    lemma_body_at(b, past(b, i, '"'));
}

proof fn lemma_number_end(b: Seq<char>, i: int)
    requires
        0 <= i <= b.len(),
    ensures
        i <= number_end(b, i) <= b.len(),
    decreases b.len() - i,
{
    if i < b.len() && in_number(b[i]) {
        lemma_number_end(b, i + 1);
    }
}

/// The JSON value at `i`, and where it ends. What is no JSON is let pass: a letter stands for the word
/// that starts with it, an unknown character for a null, and what ends early is closed.
pub open spec fn json_at(b: Seq<char>, i: int) -> (JView, int)
    decreases
            (if i <= b.len() {
                b.len() - i
            } else {
                0
            }),
            1int,
{
    if i < 0 || i > b.len() {
        (JView::Null, i)
    } else {
        proof {
            lemma_skip(b, i);
        }
        let k = skip(b, i);
        if k >= b.len() {
            (JView::Null, k)
        } else if b[k] == '{' {
            let found = members_at(b, k + 1, Seq::empty());
            (JView::Obj(found.0), found.1)
        } else if b[k] == '[' {
            let found = items_at(b, k + 1, Seq::empty());
            (JView::Arr(found.0), found.1)
        } else if b[k] == '"' {
            let found = text_at(b, k);
            (JView::Str(found.0), found.1)
        } else if b[k] == 't' {
            (JView::Bool(true), ahead(b, k, 4))
        } else if b[k] == 'f' {
            (JView::Bool(false), ahead(b, k, 5))
        } else if b[k] == 'n' {
            (JView::Null, ahead(b, k, 4))
        } else {
            let e = number_end(b, k);
            if e == k {
                (JView::Null, k + 1)
            } else {
                (JView::Num(b.subrange(k, e)), e)
            }
        }
    }
}

/// Where the value of the member at `i` starts, past its key and the colon.
pub open spec fn value_start(b: Seq<char>, i: int) -> int {
    past(b, skip(b, text_at(b, i).1), ':')
}

/// Where the next member or item starts, past the white space and the comma at `i`.
pub open spec fn next_start(b: Seq<char>, i: int) -> int {
    past(b, skip(b, i), ',')
}

/// The members of an object from `i` up to its closing brace, after those read so far.
pub open spec fn members_at(
    b: Seq<char>,
    i: int,
    seen: Seq<(Seq<char>, JView)>,
) -> (Seq<(Seq<char>, JView)>, int)
    decreases
            (if i <= b.len() {
                b.len() - i
            } else {
                0
            }),
            0int,
{
    let k = skip(b, i);
    if i < 0 || k >= b.len() {
        (seen, k)
    } else if b[k] == '}' {
        (seen, k + 1)
    } else {
        let v = value_start(b, k);
        if v <= i || v > b.len() {
            (seen, v)
        } else {
            let found = json_at(b, v);
            let m = next_start(b, found.1);
            if m <= i || m > b.len() {
                (seen, m)
            } else {
                members_at(b, m, seen.push((text_at(b, k).0, found.0)))
            }
        }
    }
}

/// The items of an array from `i` up to its closing bracket, after those read so far.
pub open spec fn items_at(b: Seq<char>, i: int, seen: Seq<JView>) -> (Seq<JView>, int)
    decreases
            (if i <= b.len() {
                b.len() - i
            } else {
                0
            }),
            2int,
{
    let k = skip(b, i);
    if i < 0 || k < i || k >= b.len() {
        (seen, k)
    } else if b[k] == ']' {
        (seen, k + 1)
    } else {
        let found = json_at(b, k);
        let m = next_start(b, found.1);
        if m <= i || m > b.len() {
            (seen, m)
        } else {
            items_at(b, m, seen.push(found.0))
        }
    }
}

proof fn lemma_json_at(b: Seq<char>, i: int)
    requires
        0 <= i <= b.len(),
    ensures
        i <= json_at(b, i).1 <= b.len(),
        skip(b, i) < b.len() ==> skip(b, i) < json_at(b, i).1,
    decreases b.len() - i, 1int,
{
    lemma_skip(b, i);
    let k = skip(b, i);
    if k < b.len() {
        if b[k] == '{' {
            lemma_members_at(b, k + 1, Seq::empty());
        } else if b[k] == '[' {
            lemma_items_at(b, k + 1, Seq::empty());
        } else if b[k] == '"' {
            lemma_text_at(b, k);
        } else {
            lemma_number_end(b, k);
        }
    }
}

proof fn lemma_value_start(b: Seq<char>, i: int)
    requires
        0 <= i < b.len(),
    ensures
        i < value_start(b, i) <= b.len(),
{
    lemma_text_at(b, i);
    lemma_skip(b, text_at(b, i).1);
}

proof fn lemma_next_start(b: Seq<char>, i: int)
    requires
        0 <= i <= b.len(),
    ensures
        i <= next_start(b, i) <= b.len(),
{
    lemma_skip(b, i);
}

proof fn lemma_members_at(b: Seq<char>, i: int, seen: Seq<(Seq<char>, JView)>)
    requires
        0 <= i <= b.len(),
    ensures
        i <= members_at(b, i, seen).1 <= b.len(),
    decreases b.len() - i, 0int,
{
    lemma_skip(b, i);
    let k = skip(b, i);
    if k < b.len() && b[k] != '}' {
        lemma_value_start(b, k);
        let v = value_start(b, k);
        lemma_json_at(b, v);
        let found = json_at(b, v);
        lemma_next_start(b, found.1);
        lemma_members_at(
            b,
            next_start(b, found.1),
            seen.push((text_at(b, k).0, found.0)),
        );
    }
}

proof fn lemma_items_at(b: Seq<char>, i: int, seen: Seq<JView>)
    requires
        0 <= i <= b.len(),
    ensures
        i <= items_at(b, i, seen).1 <= b.len(),
    decreases b.len() - i, 2int,
{
    lemma_skip(b, i);
    let k = skip(b, i);
    if k < b.len() && b[k] != ']' {
        lemma_skip(b, k);
        lemma_json_at(b, k);
        assert(skip(b, k) == k) by {
            lemma_skip_stops(b, i);
        }
        let found = json_at(b, k);
        lemma_next_start(b, found.1);
        lemma_items_at(b, next_start(b, found.1), seen.push(found.0));
    }
}

proof fn lemma_skip_stops(b: Seq<char>, i: int)
    requires
        0 <= i <= b.len(),
    ensures
        skip(b, skip(b, i)) == skip(b, i),
    decreases b.len() - i,
{
    if i < b.len() && char_is_space(b[i]) {
        lemma_skip_stops(b, i + 1);
    }
}

/// The JSON value that a text holds.
pub open spec fn parsed(s: Seq<char>) -> JView {
    json_at(s, 0).0
}

fn jws(b: &Vec<char>, from: usize) -> (r: usize)
    requires
        from <= b@.len(),
    ensures
        r == skip(b@, from as int),
        from <= r <= b@.len(),
{
    let mut i: usize = from;
    while i < b.len() && b[i].is_whitespace()
        invariant
            from <= i <= b@.len(),
            skip(b@, from as int) == skip(b@, i as int),
        decreases b.len() - i,
    {
        i = i + 1;
    }
    i
}

fn past_char(b: &Vec<char>, i: usize, c: char) -> (r: usize)
    requires
        i <= b@.len(),
    ensures
        r == past(b@, i as int, c),
        i <= r <= b@.len(),
{
    let n: usize = b.len();
    if i < n && b[i] == c {
        i + 1
    } else {
        i
    }
}

fn jstr(b: &Vec<char>, from: usize) -> (r: (String, usize))
    requires
        from <= b@.len(),
    ensures
        r.0@ == text_at(b@, from as int).0,
        r.1 == text_at(b@, from as int).1,
        from <= r.1 <= b@.len(),
{
    let start: usize = past_char(b, from, '"');
    let n: usize = b.len();
    let mut i: usize = start;
    let mut out = String::new();
    proof {
        lemma_body_at(b@, start as int);
        assert(out@ + body_at(b@, start as int).0 =~= body_at(b@, start as int).0);
    }
    while i < n && b[i] != '"'
        invariant
            start <= i <= n,
            n == b@.len(),
            out@ + body_at(b@, i as int).0 == body_at(b@, start as int).0,
            body_at(b@, i as int).1 == body_at(b@, start as int).1,
        decreases n - i,
    {
        let ghost before = out@;
        if b[i] == '\\' && i + 1 < n {
            let c = b[i + 1];
            let u = if c == 'n' {
                '\n'
            } else if c == 't' {
                '\t'
            } else if c == 'r' {
                '\r'
            } else {
                c
            };
            out.push(u);
            proof {
                let rest = body_at(b@, i + 2).0;
                assert(before + (seq![u] + rest) =~= before.push(u) + rest);
            }
            i = i + 2;
        } else {
            out.push(b[i]);
            proof {
                let rest = body_at(b@, i + 1).0;
                assert(before + (seq![b@[i as int]] + rest) =~= before.push(b@[i as int]) + rest);
            }
            i = i + 1;
        }
    }
    proof {
        assert(body_at(b@, i as int) == (Seq::<char>::empty(), i as int));
        assert(out@ =~= out@ + Seq::<char>::empty());
    }
    if i < n {
        (out, i + 1)
    } else {
        (out, i)
    }
}

fn is_number_char(c: char) -> (r: bool)
    ensures
        r == in_number(c),
{
    ('0' <= c && c <= '9') || c == '-' || c == '+' || c == '.' || c == 'e' || c == 'E'
}

fn jnum_end(b: &Vec<char>, from: usize) -> (r: usize)
    requires
        from <= b@.len(),
    ensures
        r == number_end(b@, from as int),
        from <= r <= b@.len(),
{
    let mut i: usize = from;
    while i < b.len() && is_number_char(b[i])
        invariant
            from <= i <= b@.len(),
            number_end(b@, from as int) == number_end(b@, i as int),
        decreases b.len() - i,
    {
        i = i + 1;
    }
    i
}

fn step(b: &Vec<char>, i: usize, k: usize) -> (r: usize)
    requires
        i <= b@.len(),
    ensures
        r == ahead(b@, i as int, k as int),
        r <= b@.len(),
{
    let n: usize = b.len();
    if k <= n - i {
        i + k
    } else {
        n
    }
}

fn jmembers(b: &Vec<char>, from: usize) -> (r: (Vec<(String, J)>, usize))
    requires
        from <= b@.len(),
    ensures
        members_view(r.0@, r.0@.len() as int) == members_at(b@, from as int, Seq::empty()).0,
        r.1 == members_at(b@, from as int, Seq::empty()).1,
        r.1 <= b@.len(),
    decreases b@.len() - from, 0int,
{
    let n: usize = b.len();
    let mut out: Vec<(String, J)> = Vec::new();
    let mut i: usize = from;
    let ghost whole = members_at(b@, from as int, Seq::empty());
    proof {
        lemma_members_at(b@, from as int, Seq::empty());
        assert(members_view(out@, 0) =~= Seq::<(Seq<char>, JView)>::empty());
    }
    loop
        invariant
            from <= i <= n,
            n == b@.len(),
            whole == members_at(b@, i as int, members_view(out@, out@.len() as int)),
            whole.1 <= n,
            whole == members_at(b@, from as int, Seq::empty()),
        decreases n - i,
    {
        let k: usize = jws(b, i);
        if k >= n {
            return (out, k);
        }
        if b[k] == '}' {
            return (out, k + 1);
        }
        proof {
            lemma_value_start(b@, k as int);
            lemma_text_at(b@, k as int);
        }
        let (key, after) = jstr(b, k);
        let gap: usize = jws(b, after);
        let v: usize = past_char(b, gap, ':');
        proof {
            lemma_json_at(b@, v as int);
        }
        let (val, end) = jval(b, v);
        proof {
            lemma_next_start(b@, end as int);
        }
        let gap: usize = jws(b, end);
        let next: usize = past_char(b, gap, ',');
        let ghost before = out@;
        let ghost pair = (key@, val@);
        out.push((key, val));
        proof {
            lemma_members_prefix(before, out@, before.len() as int);
            assert(members_view(out@, out@.len() as int) == members_view(
                before,
                before.len() as int,
            ).push(pair));
        }
        i = next;
    }
}

fn jitems(b: &Vec<char>, from: usize) -> (r: (Vec<J>, usize))
    requires
        from <= b@.len(),
    ensures
        jsons_view(r.0@, r.0@.len() as int) == items_at(b@, from as int, Seq::empty()).0,
        r.1 == items_at(b@, from as int, Seq::empty()).1,
        r.1 <= b@.len(),
    decreases b@.len() - from, 2int,
{
    let n: usize = b.len();
    let mut out: Vec<J> = Vec::new();
    let mut i: usize = from;
    let ghost whole = items_at(b@, from as int, Seq::empty());
    proof {
        lemma_items_at(b@, from as int, Seq::empty());
        assert(jsons_view(out@, 0) =~= Seq::<JView>::empty());
    }
    loop
        invariant
            from <= i <= n,
            n == b@.len(),
            whole == items_at(b@, i as int, jsons_view(out@, out@.len() as int)),
            whole.1 <= n,
            whole == items_at(b@, from as int, Seq::empty()),
        decreases n - i,
    {
        let k: usize = jws(b, i);
        if k >= n {
            return (out, k);
        }
        if b[k] == ']' {
            return (out, k + 1);
        }
        proof {
            lemma_skip_stops(b@, i as int);
            lemma_json_at(b@, k as int);
        }
        let (val, end) = jval(b, k);
        proof {
            lemma_next_start(b@, end as int);
        }
        let gap: usize = jws(b, end);
        let next: usize = past_char(b, gap, ',');
        let ghost before = out@;
        let ghost item = val@;
        out.push(val);
        proof {
            lemma_jsons_prefix(before, out@, before.len() as int);
            assert(jsons_view(out@, out@.len() as int) == jsons_view(
                before,
                before.len() as int,
            ).push(item));
        }
        i = next;
    }
}

fn jval(b: &Vec<char>, from: usize) -> (r: (J, usize))
    requires
        from <= b@.len(),
    ensures
        r.0@ == json_at(b@, from as int).0,
        r.1 == json_at(b@, from as int).1,
        r.1 <= b@.len(),
    decreases b@.len() - from, 1int,
{
    proof {
        lemma_json_at(b@, from as int);
    }
    let n: usize = b.len();
    let k: usize = jws(b, from);
    if k >= n {
        return (J::Null, k);
    }
    let c = b[k];
    if c == '{' {
        let (ms, end) = jmembers(b, k + 1);
        (J::Obj(ms), end)
    } else if c == '[' {
        let (items, end) = jitems(b, k + 1);
        (J::Arr(items), end)
    } else if c == '"' {
        let (s, end) = jstr(b, k);
        (J::Str(s), end)
    } else if c == 't' {
        (J::Bool(true), step(b, k, 4))
    } else if c == 'f' {
        (J::Bool(false), step(b, k, 5))
    } else if c == 'n' {
        (J::Null, step(b, k, 4))
    } else {
        let e: usize = jnum_end(b, k);
        if e == k {
            (J::Null, k + 1)
        } else {
            (J::Num(slice_text(b, k, e)), e)
        }
    }
}

/// The JSON value that a text holds. What is no JSON is let pass, as [`json_at`] says.
pub fn jparse(s: &str) -> (r: J)
    ensures
        r@ == parsed(s@),
{
    let b = chars_of(s);
    let (j, end) = jval(&b, 0);
    j
}

/// What a missing value decodes to: no items for a list, else null.
pub open spec fn decode_none(ty: Seq<char>) -> ValueView {
    if generic_inner_spec("List"@, ty) is Some {
        ValueView::List(Seq::empty())
    } else {
        ValueView::Null
    }
}

/// The run-time value of a declared type that a JSON value holds.
pub open spec fn decode_some(
    j: JView,
    ty: Seq<char>,
    p: XeresProgram,
    nums: Map<Seq<char>, NumberView>,
) -> ValueView
    decreases j, ty.len(), 0int,
{
    match generic_inner_spec("List"@, ty) {
        Some(inner) => match j {
            JView::Arr(items) => ValueView::List(
                decode_items(items, items.len() as int, inner, p, nums),
            ),
            _ => ValueView::List(Seq::empty()),
        },
        None => match generic_inner_spec("Optional"@, ty) {
            Some(inner) => if j is Null {
                ValueView::Null
            } else {
                decode_some(j, inner, p, nums)
            },
            None => if ty == "String"@ || ty == "Decimal"@ {
                ValueView::Str(held_text(j))
            } else if ty == "Int"@ || ty == "DateTime"@ {
                ValueView::Int(held_number(j, nums).whole)
            } else if ty == "Float"@ {
                ValueView::Float(held_number(j, nums))
            } else if ty == "Bool"@ {
                ValueView::Bool(j == JView::Bool(true))
            } else if is_enum(p.enums@, ty) {
                ValueView::Str(held_text(j))
            } else {
                match model_index(p.models@, ty) {
                    Some(m) => {
                        let props = p.models@[m].properties@;
                        ValueView::Record(
                            ty,
                            match j {
                                JView::Obj(ms) => decode_fields(
                                    ms,
                                    props,
                                    props.len() as int,
                                    p,
                                    nums,
                                ),
                                _ => blank_fields(props, props.len() as int),
                            },
                        )
                    },
                    None => ValueView::Null,
                }
            },
        },
    }
}

/// The run-time values of a declared type that the first `n` JSON values hold.
pub open spec fn decode_items(
    js: Seq<JView>,
    n: int,
    ty: Seq<char>,
    p: XeresProgram,
    nums: Map<Seq<char>, NumberView>,
) -> Seq<ValueView>
    decreases js, ty.len(), n,
{
    if n <= 0 || n > js.len() {
        Seq::empty()
    } else {
        decode_items(js, n - 1, ty, p, nums).push(decode_some(js[n - 1], ty, p, nums))
    }
}

/// The first `n` fields of a model, from the members of an object.
pub open spec fn decode_fields(
    ms: Seq<(Seq<char>, JView)>,
    props: Seq<PropertyNode>,
    n: int,
    p: XeresProgram,
    nums: Map<Seq<char>, NumberView>,
) -> Seq<(Seq<char>, ValueView)>
    decreases ms, 0nat, n,
{
    if n <= 0 || n > props.len() {
        Seq::empty()
    } else {
        let f = props[n - 1];
        decode_fields(ms, props, n - 1, p, nums).push(
            (
                f.name@,
                match key_index(ms, ms.len() as int, f.name@) {
                    Some(i) => if 0 <= i < ms.len() {
                        decode_some(ms[i].1, f.data_type@, p, nums)
                    } else {
                        decode_none(f.data_type@)
                    },
                    None => decode_none(f.data_type@),
                },
            ),
        )
    }
}

/// The first `n` fields of a model of which nothing is known.
pub open spec fn blank_fields(props: Seq<PropertyNode>, n: int) -> Seq<(Seq<char>, ValueView)>
    decreases n,
{
    if n <= 0 || n > props.len() {
        Seq::empty()
    } else {
        blank_fields(props, n - 1).push((props[n - 1].name@, decode_none(props[n - 1].data_type@)))
    }
}

/// The run-time value of a declared type that a JSON value, or a missing one, holds.
pub open spec fn decoded(
    j: Option<JView>,
    ty: Seq<char>,
    p: XeresProgram,
    nums: Map<Seq<char>, NumberView>,
) -> ValueView {
    match j {
        Some(v) => decode_some(v, ty, p, nums),
        None => decode_none(ty),
    }
}

fn decode_missing(ty: &str) -> (r: Value)
    ensures
        r@ == decode_none(ty@),
{
    match generic_inner("List", ty) {
        Some(inner) => {
            let none: Vec<Value> = Vec::new();
            proof {
                assert(list_view(none@) =~= Seq::<ValueView>::empty());
            }
            Value::List(none)
        },
        None => Value::Null,
    }
}

fn decode_list(js: &Vec<J>, ty: &str, p: &XeresProgram, nums: &StrMap<Number>) -> (r: Vec<Value>)
    ensures
        list_view(r@) == decode_items(
            jsons_view(js@, js@.len() as int),
            js@.len() as int,
            ty@,
            *p,
            nums@,
        ),
    decreases js, ty@.len(), 1int,
{
    let ghost vs = jsons_view(js@, js@.len() as int);
    proof {
        lemma_jsons_view(js@, js@.len() as int);
    }
    let mut out: Vec<Value> = Vec::new();
    let mut i: usize = 0;
    while i < js.len()
        invariant
            i <= js@.len(),
            vs.len() == js@.len(),
            forall|j: int| 0 <= j < js@.len() ==> #[trigger] vs[j] == json_view(js@[j]),
            list_view(out@) == decode_items(vs, i as int, ty@, *p, nums@),
        decreases js.len() - i,
    {
        let x = decode_value(&js[i], ty, p, nums);
        push_value(&mut out, x);
        i = i + 1;
    }
    out
}

fn decode_record(
    ms: &Vec<(String, J)>,
    props: &Vec<PropertyNode>,
    p: &XeresProgram,
    nums: &StrMap<Number>,
) -> (r: Vec<(String, Value)>)
    ensures
        record_view(r@) == decode_fields(
            members_view(ms@, ms@.len() as int),
            props@,
            props@.len() as int,
            *p,
            nums@,
        ),
    decreases ms, 0nat, 1int,
{
    let ghost vs = members_view(ms@, ms@.len() as int);
    proof {
        lemma_members_view(ms@, ms@.len() as int);
    }
    let mut out: Vec<(String, Value)> = Vec::new();
    let mut i: usize = 0;
    while i < props.len()
        invariant
            i <= props@.len(),
            vs.len() == ms@.len(),
            vs == members_view(ms@, ms@.len() as int),
            forall|j: int|
                0 <= j < ms@.len() ==> #[trigger] vs[j] == (ms@[j].0@, json_view(ms@[j].1)),
            record_view(out@) == decode_fields(vs, props@, i as int, *p, nums@),
        decreases props.len() - i,
    {
        let f = &props[i];
        let x = match find_key(ms, &f.name) {
            Some(k) => decode_value(&ms[k].1, &f.data_type, p, nums),
            None => decode_missing(&f.data_type),
        };
        push_field(&mut out, f.name.clone(), x);
        i = i + 1;
    }
    out
}

fn decode_blank(props: &Vec<PropertyNode>) -> (r: Vec<(String, Value)>)
    ensures
        record_view(r@) == blank_fields(props@, props@.len() as int),
{
    let mut out: Vec<(String, Value)> = Vec::new();
    let mut i: usize = 0;
    while i < props.len()
        invariant
            i <= props@.len(),
            record_view(out@) == blank_fields(props@, i as int),
        decreases props.len() - i,
    {
        let x = decode_missing(&props[i].data_type);
        push_field(&mut out, props[i].name.clone(), x);
        i = i + 1;
    }
    out
}

fn decode_value(j: &J, ty: &str, p: &XeresProgram, nums: &StrMap<Number>) -> (r: Value)
    ensures
        r@ == decode_some(j@, ty@, *p, nums@),
    decreases j, ty@.len(), 0int,
{
    if let Some(inner) = generic_inner("List", ty) {
        return match j {
            J::Arr(items) => {
                proof {
                    lemma_jsons_view(items@, items@.len() as int);
                }
                Value::List(decode_list(items, inner, p, nums))
            },
            _ => {
                let none: Vec<Value> = Vec::new();
                proof {
                    assert(list_view(none@) =~= Seq::<ValueView>::empty());
                }
                Value::List(none)
            },
        };
    }
    if let Some(inner) = generic_inner("Optional", ty) {
        return match j {
            J::Null => Value::Null,
            _ => decode_value(j, inner, p, nums),
        };
    }
    if same(ty, "String") || same(ty, "Decimal") {
        Value::Str(j.as_string())
    } else if same(ty, "Int") || same(ty, "DateTime") {
        Value::Int(j.as_i64(nums))
    } else if same(ty, "Float") {
        Value::Float(j.as_number(nums))
    } else if same(ty, "Bool") {
        Value::Bool(j.as_bool())
    } else if enum_named(&p.enums, ty) {
        Value::Str(j.as_string())
    } else {
        match find_model(&p.models, ty) {
            Some(m) => {
                let fields = match j {
                    J::Obj(ms) => {
                        proof {
                            lemma_members_view(ms@, ms@.len() as int);
                        }
                        decode_record(ms, &m.properties, p, nums)
                    },
                    _ => decode_blank(&m.properties),
                };
                Value::Record(ty.to_owned(), fields)
            },
            None => Value::Null,
        }
    }
}

/// Decodes a JSON value, or a missing one, to a run-time value of a declared type: scalars, models,
/// `List<T>` and `Optional<T>` at any depth. A field that the source lacks decodes as a missing value.
pub fn decode(j: Option<&J>, ty: &str, program: &XeresProgram, nums: &StrMap<Number>) -> (r: Value)
    ensures
        r@ == decoded(
            match j {
                Some(v) => Some(v@),
                None => None,
            },
            ty@,
            *program,
            nums@,
        ),
{
    match j {
        Some(v) => decode_value(v, ty, program, nums),
        None => decode_missing(ty),
    }
}

/// The written numbers of a JSON value, in order.
pub open spec fn numbers_in(j: JView) -> Seq<Seq<char>>
    decreases j, 0int,
{
    match j {
        JView::Num(t) => seq![t],
        JView::Arr(items) => numbers_in_items(items, items.len() as int),
        JView::Obj(ms) => numbers_in_members(ms, ms.len() as int),
        _ => Seq::empty(),
    }
}

/// The written numbers of the first `n` JSON values, in order.
pub open spec fn numbers_in_items(js: Seq<JView>, n: int) -> Seq<Seq<char>>
    decreases js, n,
{
    if n <= 0 || n > js.len() {
        Seq::empty()
    } else {
        numbers_in_items(js, n - 1) + numbers_in(js[n - 1])
    }
}

/// The written numbers of the first `n` members of an object, in order.
pub open spec fn numbers_in_members(ms: Seq<(Seq<char>, JView)>, n: int) -> Seq<Seq<char>>
    decreases ms, n,
{
    if n <= 0 || n > ms.len() {
        Seq::empty()
    } else {
        numbers_in_members(ms, n - 1) + numbers_in(ms[n - 1].1)
    }
}

fn item_numbers(js: &Vec<J>) -> (r: Parts)
    ensures
        r@ == numbers_in_items(jsons_view(js@, js@.len() as int), js@.len() as int),
    decreases js, 0int,
{
    let ghost vs = jsons_view(js@, js@.len() as int);
    proof {
        lemma_jsons_view(js@, js@.len() as int);
    }
    let mut out = Parts::new();
    let mut i: usize = 0;
    while i < js.len()
        invariant
            i <= js@.len(),
            vs.len() == js@.len(),
            forall|j: int| 0 <= j < js@.len() ==> #[trigger] vs[j] == json_view(js@[j]),
            out@ == numbers_in_items(vs, i as int),
        decreases js.len() - i,
    {
        let x = number_texts(&js[i]);
        out.extend(x);
        i = i + 1;
    }
    out
}

fn member_numbers(ms: &Vec<(String, J)>) -> (r: Parts)
    ensures
        r@ == numbers_in_members(members_view(ms@, ms@.len() as int), ms@.len() as int),
    decreases ms, 0int,
{
    let ghost vs = members_view(ms@, ms@.len() as int);
    proof {
        lemma_members_view(ms@, ms@.len() as int);
    }
    let mut out = Parts::new();
    let mut i: usize = 0;
    while i < ms.len()
        invariant
            i <= ms@.len(),
            vs.len() == ms@.len(),
            forall|j: int|
                0 <= j < ms@.len() ==> #[trigger] vs[j] == (ms@[j].0@, json_view(ms@[j].1)),
            out@ == numbers_in_members(vs, i as int),
        decreases ms.len() - i,
    {
        let x = number_texts(&ms[i].1);
        out.extend(x);
        i = i + 1;
    }
    out
}

/// The written numbers of a JSON value, in order: what is to be known before it is decoded.
pub fn number_texts(j: &J) -> (r: Parts)
    ensures
        r@ == numbers_in(j@),
    decreases j, 0int,
{
    match j {
        J::Num(t) => {
            let mut out = Parts::new();
            out.push(t.clone());
            proof {
                assert(out@ =~= seq![t@]);
            }
            out
        },
        J::Arr(items) => {
            proof {
                lemma_jsons_view(items@, items@.len() as int);
            }
            item_numbers(items)
        },
        J::Obj(ms) => {
            proof {
                lemma_members_view(ms@, ms@.len() as int);
            }
            member_numbers(ms)
        },
        _ => Parts::new(),
    }
}

/// Whether every written number of a JSON value is written as the numbers say it is.
pub open spec fn faithful(j: JView, nums: Map<Seq<char>, NumberView>) -> bool
    decreases j,
{
    match j {
        JView::Num(t) => {
            &&& json_out(j, nums) == t
            &&& t.len() > 0
            &&& forall|i: int| 0 <= i < t.len() ==> in_number(#[trigger] t[i])
        },
        JView::Arr(items) => forall|i: int|
            0 <= i < items.len() ==> faithful(#[trigger] items[i], nums),
        JView::Obj(ms) => forall|i: int|
            0 <= i < ms.len() ==> faithful((#[trigger] ms[i]).1, nums),
        _ => true,
    }
}

proof fn lemma_escape_front(c: char, t: Seq<char>)
    ensures
        escape_text(seq![c] + t) == escaped(c) + escape_text(t),
    decreases t.len(),
{
    let s = seq![c] + t;
    if t.len() == 0 {
        assert(s.drop_last() =~= Seq::<char>::empty());
        assert(escape_text(s.drop_last()) =~= Seq::<char>::empty());
        assert(s.last() == c);
        assert(escape_text(t) =~= Seq::<char>::empty());
        assert(escape_text(s) =~= escaped(c) + escape_text(t));
    } else {
        assert(s.drop_last() =~= seq![c] + t.drop_last());
        assert(s.last() == t.last());
        lemma_escape_front(c, t.drop_last());
        assert(escape_text(s) =~= escaped(c) + escape_text(t));
    }
}

proof fn lemma_body_reads(b: Seq<char>, i: int, s: Seq<char>)
    requires
        0 <= i,
        i + escape_text(s).len() < b.len(),
        b.subrange(i, i + escape_text(s).len()) == escape_text(s),
        b[i + escape_text(s).len()] == '"',
    ensures
        body_at(b, i) == (s, i + escape_text(s).len()),
    decreases s.len(),
{
    if s.len() == 0 {
        assert(body_at(b, i).0 =~= s);
    } else {
        let c = s[0];
        let t = s.subrange(1, s.len() as int);
        assert(s =~= seq![c] + t);
        lemma_escape_front(c, t);
        reveal_strlit("\\\"");
        reveal_strlit("\\\\");
        reveal_strlit("\\n");
        reveal_strlit("\\t");
        reveal_strlit("\\r");
        let k = escaped(c).len() as int;
        let whole = b.subrange(i, i + escape_text(s).len());
        assert(whole[0] == b[i]);
        assert(whole[0] == escaped(c)[0]);
        if k == 2 {
            assert(whole[1] == b[i + 1]);
            assert(whole[1] == escaped(c)[1]);
        }
        assert(b.subrange(i + k, i + k + escape_text(t).len()) =~= escape_text(t)) by {
            assert forall|x: int| 0 <= x < escape_text(t).len() implies b[i + k + x]
                == escape_text(t)[x] by {
                assert(whole[k + x] == b[i + k + x]);
            }
        }
        lemma_body_reads(b, i + k, t);
        assert(body_at(b, i).0 =~= s);
    }
}

proof fn lemma_text_reads(b: Seq<char>, i: int, s: Seq<char>)
    requires
        0 <= i,
        i + json_text(s).len() <= b.len(),
        b.subrange(i, i + json_text(s).len()) == json_text(s),
    ensures
        text_at(b, i) == (s, i + json_text(s).len()),
        b[i] == '"',
{
    reveal_strlit("\"");
    let whole = b.subrange(i, i + json_text(s).len());
    let n: int = escape_text(s).len() as int;
    assert(json_text(s).len() == n + 2);
    assert(whole[0] == b[i]);
    assert(json_text(s)[0] == '"');
    assert(whole[n + 1] == b[i + 1 + n]);
    assert(json_text(s)[n + 1] == '"');
    assert(b.subrange(i + 1, i + 1 + n) =~= escape_text(s)) by {
        assert forall|x: int| 0 <= x < n implies b[i + 1 + x] == escape_text(s)[x] by {
            assert(whole[1 + x] == b[i + 1 + x]);
            assert(json_text(s)[1 + x] == escape_text(s)[x]);
        }
    }
    lemma_body_reads(b, i + 1, s);
}

/// Reading gives back what was written: a text literal reads as the text that it was written from, to
/// its last character.
pub proof fn law_text_reads_back(s: Seq<char>)
    ensures
        text_at(json_text(s), 0) == (s, json_text(s).len() as int),
{
    assert(json_text(s).subrange(0, json_text(s).len() as int) =~= json_text(s));
    lemma_text_reads(json_text(s), 0, s);
}

/// Joining the first `m` of a list of texts gives a prefix of joining all of them, which goes on, where
/// there are more, with the separator.
proof fn lemma_join_prefix(parts: Seq<Seq<char>>, sep: Seq<char>, m: int)
    requires
        0 < m <= parts.len(),
    ensures
        join_text(parts.take(m), sep).len() <= join_text(parts, sep).len(),
        join_text(parts, sep).subrange(0, join_text(parts.take(m), sep).len() as int) == join_text(
            parts.take(m),
            sep,
        ),
        m < parts.len() ==> {
            let k = join_text(parts.take(m), sep).len() as int;
            &&& join_text(parts.take(m + 1), sep) == join_text(parts.take(m), sep) + sep + parts[m]
            &&& k + sep.len() <= join_text(parts, sep).len()
            &&& join_text(parts, sep).subrange(k, k + sep.len()) == sep
        },
    decreases parts.len() - m,
{
    if m == parts.len() {
        assert(parts.take(m) =~= parts);
        assert(join_text(parts, sep).subrange(0, join_text(parts, sep).len() as int) =~= join_text(
            parts,
            sep,
        ));
    } else {
        lemma_join_prefix(parts, sep, m + 1);
        let a = join_text(parts.take(m), sep);
        let c = join_text(parts.take(m + 1), sep);
        let all = join_text(parts, sep);
        assert(parts.take(m + 1).drop_last() =~= parts.take(m));
        assert(parts.take(m + 1).last() == parts[m]);
        assert(c == a + sep + parts[m]);
        assert forall|x: int| 0 <= x < c.len() implies all[x] == c[x] by {
            assert(all.subrange(0, c.len() as int)[x] == all[x]);
        }
        assert(all.subrange(0, a.len() as int) =~= a);
        assert(all.subrange(a.len() as int, (a.len() + sep.len()) as int) =~= sep);
    }
}

/// Whether a text is over at `i`, or goes on with what is no part of a number.
spec fn ends(b: Seq<char>, i: int) -> bool {
    i >= b.len() || !in_number(b[i])
}

proof fn lemma_number_reads(b: Seq<char>, i: int, t: Seq<char>, x: int)
    requires
        0 <= i,
        0 <= x <= t.len(),
        i + t.len() <= b.len(),
        b.subrange(i, i + t.len()) == t,
        forall|k: int| 0 <= k < t.len() ==> in_number(#[trigger] t[k]),
        ends(b, i + t.len()),
    ensures
        number_end(b, i + x) == i + t.len(),
    decreases t.len() - x,
{
    if x < t.len() {
        assert(b.subrange(i, i + t.len())[x] == b[i + x]);
        assert(in_number(t[x]));
        lemma_number_reads(b, i, t, x + 1);
    }
}

proof fn lemma_json_outs(js: Seq<JView>, n: int, nums: Map<Seq<char>, NumberView>)
    requires
        0 <= n <= js.len(),
    ensures
        json_outs(js, n, nums).len() == n,
        forall|i: int| 0 <= i < n ==> #[trigger] json_outs(js, n, nums)[i] == json_out(js[i], nums),
    decreases n,
{
    if n > 0 {
        lemma_json_outs(js, n - 1, nums);
    }
}

proof fn lemma_member_outs(
    ms: Seq<(Seq<char>, JView)>,
    n: int,
    nums: Map<Seq<char>, NumberView>,
)
    requires
        0 <= n <= ms.len(),
    ensures
        member_outs(ms, n, nums).len() == n,
        forall|i: int|
            0 <= i < n ==> #[trigger] member_outs(ms, n, nums)[i] == json_text(ms[i].0) + ":"@
                + json_out(ms[i].1, nums),
    decreases n,
{
    if n > 0 {
        lemma_member_outs(ms, n - 1, nums);
    }
}

/// Where the `m`th of a list of joined texts starts, the first of which starts at `from`.
spec fn part_start(parts: Seq<Seq<char>>, from: int, m: int) -> int {
    if m == 0 {
        from
    } else if m < parts.len() {
        from + join_text(parts.take(m), ","@).len() + 1
    } else {
        from + join_text(parts, ","@).len()
    }
}

/// Where a joined list stands in a text, its `m`th part stands where it starts, and what is behind it
/// is a comma or, behind the last, the closing character.
proof fn lemma_part(b: Seq<char>, parts: Seq<Seq<char>>, from: int, m: int, close: char)
    requires
        0 <= from,
        0 <= m < parts.len(),
        from + join_text(parts, ","@).len() < b.len(),
        b.subrange(from, from + join_text(parts, ","@).len()) == join_text(parts, ","@),
        b[from + join_text(parts, ","@).len()] == close,
        close != ',',
    ensures
        ({
            let i = part_start(parts, from, m);
            let e = i + parts[m].len();
            &&& from <= i
            &&& e < b.len()
            &&& b.subrange(i, e) == parts[m]
            &&& if m + 1 < parts.len() {
                b[e] == ',' && part_start(parts, from, m + 1) == e + 1
            } else {
                b[e] == close && part_start(parts, from, m + 1) == e
            }
        }),
{
    reveal_strlit(",");
    let sep = ","@;
    let all = join_text(parts, sep);
    let i = part_start(parts, from, m);
    assert forall|x: int| 0 <= x < all.len() implies b[from + x] == all[x] by {
        assert(b.subrange(from, from + all.len())[x] == b[from + x]);
    }
    lemma_join_prefix(parts, sep, m + 1);
    let c = join_text(parts.take(m + 1), sep);
    assert forall|x: int| 0 <= x < c.len() implies all[x] == c[x] by {
        assert(all.subrange(0, c.len() as int)[x] == all[x]);
    }
    if m == 0 {
        assert(parts.take(1)[0] == parts[0]);
        assert(c == parts[0]);
        assert(b.subrange(i, i + parts[m].len()) =~= parts[m]);
    } else {
        lemma_join_prefix(parts, sep, m);
        let a = join_text(parts.take(m), sep);
        assert(c == a + sep + parts[m]);
        assert forall|x: int| 0 <= x < parts[m].len() implies b[i + x] == parts[m][x] by {
            assert(c[a.len() + 1 + x] == parts[m][x]);
            assert(b[from + (a.len() + 1 + x)] == all[a.len() + 1 + x]);
        }
        assert(b.subrange(i, i + parts[m].len()) =~= parts[m]);
    }
    if m + 1 < parts.len() {
        assert(all.subrange(c.len() as int, (c.len() + 1) as int)[0] == all[c.len() as int]);
        assert(b[from + c.len()] == all[c.len() as int]);
    } else {
        assert(parts.take(m + 1) =~= parts);
    }
}

proof fn lemma_items_read(
    b: Seq<char>,
    from: int,
    items: Seq<JView>,
    m: int,
    nums: Map<Seq<char>, NumberView>,
)
    requires
        0 <= from,
        0 <= m <= items.len(),
        forall|i: int| 0 <= i < items.len() ==> faithful(#[trigger] items[i], nums),
        ({
            let all = join_text(json_outs(items, items.len() as int, nums), ","@);
            &&& from + all.len() < b.len()
            &&& b.subrange(from, from + all.len()) == all
            &&& b[from + all.len()] == ']'
        }),
    ensures
        ({
            let parts = json_outs(items, items.len() as int, nums);
            items_at(b, part_start(parts, from, m), items.take(m)) == (
                items,
                from + join_text(parts, ","@).len() + 1,
            )
        }),
    decreases items, items.len() - m,
{
    let parts = json_outs(items, items.len() as int, nums);
    let all = join_text(parts, ","@);
    lemma_json_outs(items, items.len() as int, nums);
    let i = part_start(parts, from, m);
    if m == items.len() {
        if m == 0 {
            assert(all.len() == 0);
        }
        assert(items.take(m) =~= items);
        assert(b[i] == ']');
        assert(skip(b, i) == i);
    } else {
        lemma_part(b, parts, from, m, ']');
        let e = i + parts[m].len();
        assert(ends(b, e));
        lemma_reads(items[m], nums, b, i);
        lemma_first(items[m], nums);
        assert(b.subrange(i, e)[0] == b[i]);
        assert(skip(b, i) == i);
        assert(json_at(b, i) == (items[m], e));
        assert(skip(b, e) == e);
        assert(next_start(b, e) == part_start(parts, from, m + 1));
        lemma_items_read(b, from, items, m + 1, nums);
        assert(items.take(m).push(items[m]) =~= items.take(m + 1));
    }
}

proof fn lemma_members_read(
    b: Seq<char>,
    from: int,
    ms: Seq<(Seq<char>, JView)>,
    m: int,
    nums: Map<Seq<char>, NumberView>,
)
    requires
        0 <= from,
        0 <= m <= ms.len(),
        forall|i: int| 0 <= i < ms.len() ==> faithful((#[trigger] ms[i]).1, nums),
        ({
            let all = join_text(member_outs(ms, ms.len() as int, nums), ","@);
            &&& from + all.len() < b.len()
            &&& b.subrange(from, from + all.len()) == all
            &&& b[from + all.len()] == '}'
        }),
    ensures
        ({
            let parts = member_outs(ms, ms.len() as int, nums);
            members_at(b, part_start(parts, from, m), ms.take(m)) == (
                ms,
                from + join_text(parts, ","@).len() + 1,
            )
        }),
    decreases ms, ms.len() - m,
{
    let parts = member_outs(ms, ms.len() as int, nums);
    let all = join_text(parts, ","@);
    lemma_member_outs(ms, ms.len() as int, nums);
    let i = part_start(parts, from, m);
    if m == ms.len() {
        if m == 0 {
            assert(all.len() == 0);
        }
        assert(ms.take(m) =~= ms);
        assert(b[i] == '}');
        assert(skip(b, i) == i);
    } else {
        lemma_part(b, parts, from, m, '}');
        reveal_strlit(":");
        let e = i + parts[m].len();
        let key = json_text(ms[m].0);
        let val = json_out(ms[m].1, nums);
        assert(parts[m] == key + ":"@ + val);
        let v = i + key.len() + 1;
        assert forall|x: int| 0 <= x < parts[m].len() implies b[i + x] == parts[m][x] by {
            assert(b.subrange(i, e)[x] == b[i + x]);
        }
        assert(b.subrange(i, i + key.len()) =~= key);
        lemma_text_reads(b, i, ms[m].0);
        assert(b[i + key.len()] == ':') by {
            assert(parts[m][key.len() as int] == ':');
        }
        assert(b.subrange(v, e) =~= val) by {
            assert forall|x: int| 0 <= x < val.len() implies b[v + x] == val[x] by {
                assert(parts[m][key.len() + 1 + x] == val[x]);
                assert(b[i + (key.len() + 1 + x)] == parts[m][key.len() + 1 + x]);
            }
        }
        assert(ends(b, e));
        lemma_reads(ms[m].1, nums, b, v);
        assert(skip(b, i) == i);
        assert(skip(b, i + key.len()) == i + key.len());
        assert(value_start(b, i) == v);
        assert(json_at(b, v) == (ms[m].1, e));
        assert(skip(b, e) == e);
        assert(next_start(b, e) == part_start(parts, from, m + 1));
        lemma_members_read(b, from, ms, m + 1, nums);
        assert(ms.take(m).push((ms[m].0, ms[m].1)) =~= ms.take(m + 1));
    }
}

/// What the text of a JSON value starts with.
proof fn lemma_first(j: JView, nums: Map<Seq<char>, NumberView>)
    requires
        faithful(j, nums),
    ensures
        json_out(j, nums).len() > 0,
        match j {
            JView::Null => json_out(j, nums)[0] == 'n' && json_out(j, nums).len() == 4,
            JView::Bool(true) => json_out(j, nums)[0] == 't' && json_out(j, nums).len() == 4,
            JView::Bool(false) => json_out(j, nums)[0] == 'f' && json_out(j, nums).len() == 5,
            JView::Num(t) => in_number(json_out(j, nums)[0]),
            JView::Str(s) => json_out(j, nums)[0] == '"',
            JView::Arr(items) => json_out(j, nums)[0] == '[',
            JView::Obj(ms) => json_out(j, nums)[0] == '{',
        },
        !char_is_space(json_out(j, nums)[0]),
        json_out(j, nums)[0] != ']',
        json_out(j, nums)[0] != '}',
{
    reveal_strlit("null");
    reveal_strlit("true");
    reveal_strlit("false");
    reveal_strlit("\"");
    reveal_strlit("[");
    reveal_strlit("{");
}

proof fn lemma_reads(j: JView, nums: Map<Seq<char>, NumberView>, b: Seq<char>, i: int)
    requires
        faithful(j, nums),
        0 <= i,
        i + json_out(j, nums).len() <= b.len(),
        b.subrange(i, i + json_out(j, nums).len()) == json_out(j, nums),
        ends(b, i + json_out(j, nums).len()),
    ensures
        json_at(b, i) == (j, i + json_out(j, nums).len()),
    decreases j, 0int,
{
    let out = json_out(j, nums);
    let e = i + out.len();
    lemma_first(j, nums);
    assert forall|x: int| 0 <= x < out.len() implies b[i + x] == out[x] by {
        assert(b.subrange(i, e)[x] == b[i + x]);
    }
    assert(b[i + 0] == out[0]);
    assert(skip(b, i) == i);
    match j {
        JView::Num(t) => {
            lemma_number_reads(b, i, t, 0);
            assert(b.subrange(i, e) =~= t);
        },
        JView::Str(s) => {
            lemma_text_reads(b, i, s);
        },
        JView::Arr(items) => {
            reveal_strlit("[");
            reveal_strlit("]");
            let all = join_text(json_outs(items, items.len() as int, nums), ","@);
            assert(out =~= "["@ + all + "]"@);
            assert(b.subrange(i + 1, i + 1 + all.len()) =~= all) by {
                assert forall|x: int| 0 <= x < all.len() implies b[i + 1 + x] == all[x] by {
                    assert(out[1 + x] == all[x]);
                    assert(b[i + (1 + x)] == out[1 + x]);
                }
            }
            assert(b[i + (1 + all.len())] == out[1 + all.len() as int]);
            lemma_items_read(b, i + 1, items, 0, nums);
            assert(items.take(0) =~= Seq::<JView>::empty());
        },
        JView::Obj(ms) => {
            reveal_strlit("{");
            reveal_strlit("}");
            let all = join_text(member_outs(ms, ms.len() as int, nums), ","@);
            assert(out =~= "{"@ + all + "}"@);
            assert(b.subrange(i + 1, i + 1 + all.len()) =~= all) by {
                assert forall|x: int| 0 <= x < all.len() implies b[i + 1 + x] == all[x] by {
                    assert(out[1 + x] == all[x]);
                    assert(b[i + (1 + x)] == out[1 + x]);
                }
            }
            assert(b[i + (1 + all.len())] == out[1 + all.len() as int]);
            lemma_members_read(b, i + 1, ms, 0, nums);
            assert(ms.take(0) =~= Seq::<(Seq<char>, JView)>::empty());
        },
        _ => {},
    }
}

/// Reading gives back what was written: the text of a JSON value whose numbers are written as they
/// were read is read as that value.
pub proof fn law_json_reads_back(j: JView, nums: Map<Seq<char>, NumberView>)
    requires
        faithful(j, nums),
    ensures
        parsed(json_out(j, nums)) == j,
{
    let out = json_out(j, nums);
    assert(out.subrange(0, out.len() as int) =~= out);
    lemma_reads(j, nums, out, 0);
}

} // verus!
