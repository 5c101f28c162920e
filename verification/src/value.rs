//! Run-time values: how they are shown, compared, computed with, and written to the wire.
use vstd::prelude::*;
use vstd::string::*;

use crate::ast::{find_model, model_index, prop_index, XeresProgram};
use crate::num::{i64_text, int_text};
use crate::text::{cat3, cat5, join_text, same, Parts};
use crate::unicode::{debug_text, quoted};

verus! {

/// A binary fraction, by what is read of it: its shortest decimal text, the text that a trace shows,
/// what is left of it as an integer, and whether it is one.
#[derive(Debug)]
pub struct Number {
    pub text: String,
    pub debug: String,
    pub whole: i64,
    pub integral: bool,
}

/// A binary fraction, by its texts.
pub struct NumberView {
    pub text: Seq<char>,
    pub debug: Seq<char>,
    pub whole: int,
    pub integral: bool,
}

impl View for Number {
    type V = NumberView;

    open spec fn view(&self) -> NumberView {
        NumberView {
            text: self.text@,
            debug: self.debug@,
            whole: self.whole as int,
            integral: self.integral,
        }
    }
}

/// A run-time value.
#[derive(Debug)]
pub enum Value {
    Int(i64),
    Float(Number),
    Str(String),
    Bool(bool),
    Record(String, Vec<(String, Value)>),
    List(Vec<Value>),
    Null,
}

/// A run-time value, by its texts.
pub enum ValueView {
    Int(int),
    Float(NumberView),
    Str(Seq<char>),
    Bool(bool),
    Record(Seq<char>, Seq<(Seq<char>, ValueView)>),
    List(Seq<ValueView>),
    Null,
}

/// A value, by its texts.
pub open spec fn value_view(v: Value) -> ValueView
    decreases v, 0int,
{
    match v {
        Value::Int(n) => ValueView::Int(n as int),
        Value::Float(f) => ValueView::Float(f@),
        Value::Str(s) => ValueView::Str(s@),
        Value::Bool(b) => ValueView::Bool(b),
        Value::Record(name, fields) => ValueView::Record(
            name@,
            fields_view(fields@, fields@.len() as int),
        ),
        Value::List(items) => ValueView::List(values_view(items@, items@.len() as int)),
        Value::Null => ValueView::Null,
    }
}

/// The first `n` values, by their texts.
pub open spec fn values_view(vs: Seq<Value>, n: int) -> Seq<ValueView>
    decreases vs, n,
{
    if n <= 0 || n > vs.len() {
        Seq::empty()
    } else {
        values_view(vs, n - 1).push(value_view(vs[n - 1]))
    }
}

/// The first `n` fields, by their texts.
pub open spec fn fields_view(fs: Seq<(String, Value)>, n: int) -> Seq<(Seq<char>, ValueView)>
    decreases fs, n,
{
    if n <= 0 || n > fs.len() {
        Seq::empty()
    } else {
        fields_view(fs, n - 1).push((fs[n - 1].0@, value_view(fs[n - 1].1)))
    }
}

impl View for Value {
    type V = ValueView;

    open spec fn view(&self) -> ValueView {
        value_view(*self)
    }
}

/// The values of a list, by their texts.
pub open spec fn list_view(vs: Seq<Value>) -> Seq<ValueView> {
    values_view(vs, vs.len() as int)
}

pub proof fn lemma_values_view(vs: Seq<Value>, n: int)
    requires
        0 <= n <= vs.len(),
    ensures
        values_view(vs, n).len() == n,
        forall|i: int| 0 <= i < n ==> #[trigger] values_view(vs, n)[i] == value_view(vs[i]),
    decreases n,
{
    if n > 0 {
        lemma_values_view(vs, n - 1);
    }
}

pub proof fn lemma_fields_view(fs: Seq<(String, Value)>, n: int)
    requires
        0 <= n <= fs.len(),
    ensures
        fields_view(fs, n).len() == n,
        forall|i: int|
            0 <= i < n ==> #[trigger] fields_view(fs, n)[i] == (fs[i].0@, value_view(fs[i].1)),
    decreases n,
{
    if n > 0 {
        lemma_fields_view(fs, n - 1);
    }
}

proof fn lemma_values_prefix(a: Seq<Value>, b: Seq<Value>, n: int)
    requires
        0 <= n <= a.len(),
        n <= b.len(),
        forall|i: int| 0 <= i < n ==> a[i] == b[i],
    ensures
        values_view(a, n) == values_view(b, n),
    decreases n,
{
    if n > 0 {
        lemma_values_prefix(a, b, n - 1);
    }
}

proof fn lemma_fields_prefix(a: Seq<(String, Value)>, b: Seq<(String, Value)>, n: int)
    requires
        0 <= n <= a.len(),
        n <= b.len(),
        forall|i: int| 0 <= i < n ==> a[i] == b[i],
    ensures
        fields_view(a, n) == fields_view(b, n),
    decreases n,
{
    if n > 0 {
        lemma_fields_prefix(a, b, n - 1);
    }
}

/// Appends a value to a list.
pub fn push_value(vs: &mut Vec<Value>, v: Value)
    ensures
        list_view(final(vs)@) == list_view(old(vs)@).push(v@),
{
    let ghost before = vs@;
    vs.push(v);
    proof {
        lemma_values_prefix(before, vs@, before.len() as int);
    }
}

/// The fields of a record, by their texts.
pub open spec fn record_view(fs: Seq<(String, Value)>) -> Seq<(Seq<char>, ValueView)> {
    fields_view(fs, fs.len() as int)
}

/// Appends a field to a record.
pub fn push_field(fs: &mut Vec<(String, Value)>, k: String, v: Value)
    ensures
        record_view(final(fs)@) == record_view(old(fs)@).push((k@, v@)),
{
    let ghost before = fs@;
    fs.push((k, v));
    proof {
        lemma_fields_prefix(before, fs@, before.len() as int);
    }
}

/// A copy of a number.
pub fn copy_number(n: &Number) -> (r: Number)
    ensures
        r@ == n@,
{
    Number {
        text: n.text.clone(),
        debug: n.debug.clone(),
        whole: n.whole,
        integral: n.integral,
    }
}

/// A copy of a list of values.
pub fn copy_values(vs: &Vec<Value>) -> (r: Vec<Value>)
    ensures
        list_view(r@) == list_view(vs@),
    decreases vs, 0int,
{
    let mut out: Vec<Value> = Vec::new();
    let mut i: usize = 0;
    while i < vs.len()
        invariant
            i <= vs.len(),
            list_view(out@) == values_view(vs@, i as int),
        decreases vs.len() - i,
    {
        let x = copy_value(&vs[i]);
        push_value(&mut out, x);
        i = i + 1;
    }
    out
}

fn copy_fields(fs: &Vec<(String, Value)>) -> (r: Vec<(String, Value)>)
    ensures
        record_view(r@) == record_view(fs@),
    decreases fs, 0int,
{
    let mut out: Vec<(String, Value)> = Vec::new();
    let mut i: usize = 0;
    while i < fs.len()
        invariant
            i <= fs.len(),
            record_view(out@) == fields_view(fs@, i as int),
        decreases fs.len() - i,
    {
        let x = copy_value(&fs[i].1);
        push_field(&mut out, fs[i].0.clone(), x);
        i = i + 1;
    }
    out
}

/// A copy of a value.
pub fn copy_value(v: &Value) -> (r: Value)
    ensures
        r@ == v@,
    decreases v, 0int,
{
    match v {
        Value::Int(n) => Value::Int(*n),
        Value::Float(f) => Value::Float(copy_number(f)),
        Value::Str(s) => Value::Str(s.clone()),
        Value::Bool(b) => Value::Bool(*b),
        Value::Record(name, fields) => Value::Record(name.clone(), copy_fields(fields)),
        Value::List(items) => Value::List(copy_values(items)),
        Value::Null => Value::Null,
    }
}

/// A value as it is joined to a text. Records, lists and null show as nothing.
pub open spec fn display_text(v: ValueView) -> Seq<char> {
    match v {
        ValueView::Int(n) => int_text(n),
        ValueView::Float(f) => f.text,
        ValueView::Str(s) => s,
        ValueView::Bool(b) => if b {
            "true"@
        } else {
            "false"@
        },
        _ => ""@,
    }
}

fn bool_src(b: bool) -> (r: &'static str)
    ensures
        r@ == (if b {
            "true"@
        } else {
            "false"@
        }),
{
    if b {
        "true"
    } else {
        "false"
    }
}

/// A value as it is joined to a text.
pub fn display(v: &Value) -> (r: String)
    ensures
        r@ == display_text(v@),
{
    match v {
        Value::Int(n) => i64_text(*n),
        Value::Float(f) => f.text.clone(),
        Value::Str(s) => s.clone(),
        Value::Bool(b) => bool_src(*b).to_owned(),
        _ => "".to_owned(),
    }
}

/// A value as a trace shows it.
pub open spec fn trace_text(v: ValueView) -> Seq<char>
    decreases v, 0int,
{
    match v {
        ValueView::Int(n) => "Int("@ + int_text(n) + ")"@,
        ValueView::Float(f) => "Float("@ + f.debug + ")"@,
        ValueView::Str(s) => "Str("@ + debug_text(s) + ")"@,
        ValueView::Bool(b) => "Bool("@ + (if b {
            "true"@
        } else {
            "false"@
        }) + ")"@,
        ValueView::Record(name, fields) => "Record("@ + debug_text(name) + ", ["@ + join_text(
            trace_fields(fields, fields.len() as int),
            ", "@,
        ) + "])"@,
        ValueView::List(items) => "List(["@ + join_text(
            trace_all(items, items.len() as int),
            ", "@,
        ) + "])"@,
        ValueView::Null => "Null"@,
    }
}

/// The first `n` values as a trace shows them.
pub open spec fn trace_all(vs: Seq<ValueView>, n: int) -> Seq<Seq<char>>
    decreases vs, n,
{
    if n <= 0 || n > vs.len() {
        Seq::empty()
    } else {
        trace_all(vs, n - 1).push(trace_text(vs[n - 1]))
    }
}

/// The first `n` fields as a trace shows them.
pub open spec fn trace_fields(fs: Seq<(Seq<char>, ValueView)>, n: int) -> Seq<Seq<char>>
    decreases fs, n,
{
    if n <= 0 || n > fs.len() {
        Seq::empty()
    } else {
        trace_fields(fs, n - 1).push(
            "("@ + debug_text(fs[n - 1].0) + ", "@ + trace_text(fs[n - 1].1) + ")"@,
        )
    }
}

fn trace_values(vs: &Vec<Value>) -> (r: Parts)
    ensures
        r@ == trace_all(list_view(vs@), vs@.len() as int),
    decreases vs, 0int,
{
    let mut out = Parts::new();
    let mut i: usize = 0;
    proof {
        lemma_values_view(vs@, vs@.len() as int);
    }
    while i < vs.len()
        invariant
            i <= vs.len(),
            list_view(vs@).len() == vs@.len(),
            forall|j: int|
                0 <= j < vs@.len() ==> #[trigger] list_view(vs@)[j] == value_view(vs@[j]),
            out@ == trace_all(list_view(vs@), i as int),
        decreases vs.len() - i,
    {
        let x = trace(&vs[i]);
        out.push(x);
        i = i + 1;
    }
    out
}

fn trace_record(fs: &Vec<(String, Value)>) -> (r: Parts)
    ensures
        r@ == trace_fields(record_view(fs@), fs@.len() as int),
    decreases fs, 0int,
{
    let mut out = Parts::new();
    let mut i: usize = 0;
    proof {
        lemma_fields_view(fs@, fs@.len() as int);
    }
    while i < fs.len()
        invariant
            i <= fs.len(),
            record_view(fs@).len() == fs@.len(),
            forall|j: int|
                0 <= j < fs@.len() ==> #[trigger] record_view(fs@)[j] == (
                    fs@[j].0@,
                    value_view(fs@[j].1),
                ),
            out@ == trace_fields(record_view(fs@), i as int),
        decreases fs.len() - i,
    {
        let x = trace(&fs[i].1);
        out.push(cat5("(", &quoted(&fs[i].0), ", ", &x, ")"));
        i = i + 1;
    }
    out
}

/// A value as a trace shows it.
pub fn trace(v: &Value) -> (r: String)
    ensures
        r@ == trace_text(v@),
    decreases v, 0int,
{
    match v {
        Value::Int(n) => cat3("Int(", &i64_text(*n), ")"),
        Value::Float(f) => cat3("Float(", &f.debug, ")"),
        Value::Str(s) => cat3("Str(", &quoted(s), ")"),
        Value::Bool(b) => cat3("Bool(", bool_src(*b), ")"),
        Value::Record(name, fields) => {
            let parts = trace_record(fields);
            proof {
                lemma_fields_view(fields@, fields@.len() as int);
            }
            cat5("Record(", &quoted(name), ", [", &parts.join(", "), "])")
        },
        Value::List(items) => {
            let parts = trace_values(items);
            proof {
                lemma_values_view(items@, items@.len() as int);
            }
            cat3("List([", &parts.join(", "), "])")
        },
        Value::Null => "Null".to_owned(),
    }
}

/// A character of a text literal on the wire.
pub open spec fn escaped(c: char) -> Seq<char> {
    if c == '"' {
        "\\\""@
    } else if c == '\\' {
        "\\\\"@
    } else if c == '\n' {
        "\\n"@
    } else if c == '\t' {
        "\\t"@
    } else if c == '\r' {
        "\\r"@
    } else {
        seq![c]
    }
}

/// The characters of a text literal on the wire.
pub open spec fn escape_text(s: Seq<char>) -> Seq<char>
    decreases s.len(),
{
    if s.len() == 0 {
        Seq::empty()
    } else {
        escape_text(s.drop_last()) + escaped(s.last())
    }
}

/// A text literal on the wire.
pub open spec fn json_text(s: Seq<char>) -> Seq<char> {
    "\""@ + escape_text(s) + "\""@
}

/// A text literal on the wire.
pub fn json_str(s: &str) -> (r: String)
    ensures
        r@ == json_text(s@),
{
    let b = crate::text::chars_of(s);
    let n: usize = b.len();
    let mut out = "\"".to_owned();
    let mut i: usize = 0;
    proof {
        assert(b@.take(0) =~= Seq::<char>::empty());
        assert(out@ =~= "\""@ + escape_text(b@.take(0)));
    }
    while i < n
        invariant
            i <= n,
            n == b@.len(),
            out@ == "\""@ + escape_text(b@.take(i as int)),
        decreases n - i,
    {
        let c = b[i];
        let ghost before = out@;
        proof {
            assert(b@.take(i + 1).drop_last() =~= b@.take(i as int));
            assert(b@.take(i + 1).last() == c);
        }
        if c == '"' {
            out.append("\\\"");
        } else if c == '\\' {
            out.append("\\\\");
        } else if c == '\n' {
            out.append("\\n");
        } else if c == '\t' {
            out.append("\\t");
        } else if c == '\r' {
            out.append("\\r");
        } else {
            out.push(c);
            proof {
                assert(out@ =~= before + seq![c]);
            }
        }
        proof {
            assert(out@ =~= "\""@ + (escape_text(b@.take(i as int)) + escaped(c)));
        }
        i = i + 1;
    }
    proof {
        assert(b@.take(n as int) =~= s@);
    }
    out.append("\"");
    out
}

/// Whether a field of a record is a secret of its model. What is no field of a model is not.
pub open spec fn is_secret(name: Seq<char>, key: Seq<char>, p: XeresProgram) -> bool {
    match model_index(p.models@, name) {
        Some(i) => match prop_index(p.models@[i].properties@, key) {
            Some(k) => p.models@[i].properties@[k].is_secret,
            None => false,
        },
        None => false,
    }
}

fn secret_field(name: &str, key: &str, p: &XeresProgram) -> (r: bool)
    ensures
        r == is_secret(name@, key@, *p),
{
    match find_model(&p.models, name) {
        Some(m) => match m.field(key) {
            Some(f) => f.is_secret,
            None => false,
        },
        None => false,
    }
}

/// A value as it goes over the wire: the secret fields of models are left out.
pub open spec fn wire_text(v: ValueView, p: XeresProgram) -> Seq<char>
    decreases v, 0int,
{
    match v {
        ValueView::Null => "null"@,
        ValueView::Bool(b) => if b {
            "true"@
        } else {
            "false"@
        },
        ValueView::Int(n) => int_text(n),
        ValueView::Float(f) => if f.integral {
            int_text(f.whole)
        } else {
            f.text
        },
        ValueView::Str(s) => json_text(s),
        ValueView::List(items) => "["@ + join_text(wire_all(items, items.len() as int, p), ","@)
            + "]"@,
        ValueView::Record(name, fields) => "{"@ + join_text(
            wire_fields(name, fields, fields.len() as int, p),
            ","@,
        ) + "}"@,
    }
}

/// The first `n` values as they go over the wire.
pub open spec fn wire_all(vs: Seq<ValueView>, n: int, p: XeresProgram) -> Seq<Seq<char>>
    decreases vs, n,
{
    if n <= 0 || n > vs.len() {
        Seq::empty()
    } else {
        wire_all(vs, n - 1, p).push(wire_text(vs[n - 1], p))
    }
}

/// The first `n` fields of a record as they go over the wire.
pub open spec fn wire_fields(
    name: Seq<char>,
    fs: Seq<(Seq<char>, ValueView)>,
    n: int,
    p: XeresProgram,
) -> Seq<Seq<char>>
    decreases fs, n,
{
    if n <= 0 || n > fs.len() {
        Seq::empty()
    } else if is_secret(name, fs[n - 1].0, p) {
        wire_fields(name, fs, n - 1, p)
    } else {
        wire_fields(name, fs, n - 1, p).push(
            json_text(fs[n - 1].0) + ":"@ + wire_text(fs[n - 1].1, p),
        )
    }
}

fn wire_values(vs: &Vec<Value>, p: &XeresProgram) -> (r: Parts)
    ensures
        r@ == wire_all(list_view(vs@), vs@.len() as int, *p),
    decreases vs, 0int,
{
    let mut out = Parts::new();
    let mut i: usize = 0;
    proof {
        lemma_values_view(vs@, vs@.len() as int);
    }
    while i < vs.len()
        invariant
            i <= vs.len(),
            list_view(vs@).len() == vs@.len(),
            forall|j: int|
                0 <= j < vs@.len() ==> #[trigger] list_view(vs@)[j] == value_view(vs@[j]),
            out@ == wire_all(list_view(vs@), i as int, *p),
        decreases vs.len() - i,
    {
        let x = wire_json(&vs[i], p);
        out.push(x);
        i = i + 1;
    }
    out
}

fn wire_record(name: &str, fs: &Vec<(String, Value)>, p: &XeresProgram) -> (r: Parts)
    ensures
        r@ == wire_fields(name@, record_view(fs@), fs@.len() as int, *p),
    decreases fs, 0int,
{
    let mut out = Parts::new();
    let mut i: usize = 0;
    proof {
        lemma_fields_view(fs@, fs@.len() as int);
    }
    while i < fs.len()
        invariant
            i <= fs.len(),
            record_view(fs@).len() == fs@.len(),
            forall|j: int|
                0 <= j < fs@.len() ==> #[trigger] record_view(fs@)[j] == (
                    fs@[j].0@,
                    value_view(fs@[j].1),
                ),
            out@ == wire_fields(name@, record_view(fs@), i as int, *p),
        decreases fs.len() - i,
    {
        if !secret_field(name, &fs[i].0, p) {
            let x = wire_json(&fs[i].1, p);
            out.push(cat3(&json_str(&fs[i].0), ":", &x));
        }
        i = i + 1;
    }
    out
}

/// A value as it goes over the wire: the secret fields of models are left out.
pub fn wire_json(v: &Value, p: &XeresProgram) -> (r: String)
    ensures
        r@ == wire_text(v@, *p),
    decreases v, 0int,
{
    match v {
        Value::Null => "null".to_owned(),
        Value::Bool(b) => bool_src(*b).to_owned(),
        Value::Int(n) => i64_text(*n),
        Value::Float(f) => if f.integral {
            i64_text(f.whole)
        } else {
            f.text.clone()
        },
        Value::Str(s) => json_str(s),
        Value::List(items) => {
            let parts = wire_values(items, p);
            proof {
                lemma_values_view(items@, items@.len() as int);
            }
            cat3("[", &parts.join(","), "]")
        },
        Value::Record(name, fields) => {
            let parts = wire_record(name, fields, p);
            proof {
                lemma_fields_view(fields@, fields@.len() as int);
            }
            cat3("{", &parts.join(","), "}")
        },
    }
}

/// Whether two values agree in everything but the secret fields of models, at any depth.
pub open spec fn agree(v: ValueView, w: ValueView, p: XeresProgram) -> bool
    decreases v,
{
    match v {
        ValueView::Record(name, fs) => {
            &&& w matches ValueView::Record(other, gs)
            &&& other == name
            &&& gs.len() == fs.len()
            &&& forall|i: int|
                0 <= i < fs.len() ==> (#[trigger] fs[i]).0 == gs[i].0 && (is_secret(
                    name,
                    fs[i].0,
                    p,
                ) || agree(fs[i].1, gs[i].1, p))
        },
        ValueView::List(xs) => {
            &&& w matches ValueView::List(ys)
            &&& xs.len() == ys.len()
            &&& forall|i: int| 0 <= i < xs.len() ==> agree(#[trigger] xs[i], ys[i], p)
        },
        _ => w == v,
    }
}

proof fn lemma_wire_all_agree(xs: Seq<ValueView>, ys: Seq<ValueView>, n: int, p: XeresProgram)
    requires
        0 <= n <= xs.len(),
        xs.len() == ys.len(),
        forall|i: int| 0 <= i < xs.len() ==> agree(#[trigger] xs[i], ys[i], p),
    ensures
        wire_all(xs, n, p) == wire_all(ys, n, p),
    decreases xs, n,
{
    if n > 0 {
        lemma_wire_all_agree(xs, ys, n - 1, p);
        assert(agree(xs[n - 1], ys[n - 1], p));
        law_secrets_stay_off_the_wire(xs[n - 1], ys[n - 1], p);
    }
}

proof fn lemma_wire_fields_agree(
    name: Seq<char>,
    fs: Seq<(Seq<char>, ValueView)>,
    gs: Seq<(Seq<char>, ValueView)>,
    n: int,
    p: XeresProgram,
)
    requires
        0 <= n <= fs.len(),
        fs.len() == gs.len(),
        forall|i: int|
            0 <= i < fs.len() ==> (#[trigger] fs[i]).0 == gs[i].0 && (is_secret(name, fs[i].0, p)
                || agree(fs[i].1, gs[i].1, p)),
    ensures
        wire_fields(name, fs, n, p) == wire_fields(name, gs, n, p),
    decreases fs, n,
{
    if n > 0 {
        lemma_wire_fields_agree(name, fs, gs, n - 1, p);
        assert(fs[n - 1].0 == gs[n - 1].0);
        if !is_secret(name, fs[n - 1].0, p) {
            law_secrets_stay_off_the_wire(fs[n - 1].1, gs[n - 1].1, p);
        }
    }
}

/// Secrets stay off the wire: two values that differ in nothing but the secret fields of models, at
/// any depth, go over the wire as the same text.
pub proof fn law_secrets_stay_off_the_wire(v: ValueView, w: ValueView, p: XeresProgram)
    requires
        agree(v, w, p),
    ensures
        wire_text(v, p) == wire_text(w, p),
    decreases v, 0int,
{
    match v {
        ValueView::Record(name, fs) => {
            if let ValueView::Record(other, gs) = w {
                lemma_wire_fields_agree(name, fs, gs, fs.len() as int, p);
            }
        },
        ValueView::List(xs) => {
            if let ValueView::List(ys) = w {
                lemma_wire_all_agree(xs, ys, xs.len() as int, p);
            }
        },
        _ => {},
    }
}

} // verus!
