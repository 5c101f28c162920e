//! Diagnostics: what the loader and the semantic analysis report, in a stable order.
use vstd::prelude::*;
use vstd::string::*;

use crate::num::{nat_text, usize_text};
use crate::scan::{lines_of, split_lines};
use crate::strmap::StrMap;
use crate::text::{cat2, cat3, cat4, Parts};

verus! {

/// One finding. An empty `file` stands for the entry file.
#[derive(Debug)]
pub struct Diagnostic {
    /// The source file that this points at; empty for the entry file.
    pub file: String,
    pub line: usize,
    /// The rule that is broken.
    pub rule: &'static str,
    pub message: String,
}

/// A finding, by its texts.
pub struct DiagView {
    pub file: Seq<char>,
    pub line: nat,
    pub rule: Seq<char>,
    pub message: Seq<char>,
}

impl View for Diagnostic {
    type V = DiagView;

    open spec fn view(&self) -> DiagView {
        DiagView {
            file: self.file@,
            line: self.line as nat,
            rule: self.rule@,
            message: self.message@,
        }
    }
}

/// A list with one finding in the entry file.
pub open spec fn found(rule: Seq<char>, message: Seq<char>, line: nat) -> Seq<DiagView> {
    seq![DiagView { file: Seq::empty(), line, rule, message }]
}

/// A list with one finding in a named file.
pub open spec fn found_in(file: Seq<char>, line: nat, rule: Seq<char>, message: Seq<char>) -> Seq<
    DiagView,
> {
    seq![DiagView { file, line, rule, message }]
}

/// A list without findings.
pub open spec fn clean() -> Seq<DiagView> {
    Seq::empty()
}

/// A list of findings; its view is the list of their texts.
#[derive(Debug)]
pub struct Report {
    pub items: Vec<Diagnostic>,
}

/// The findings of a list, by their texts.
pub open spec fn diag_views(items: Seq<Diagnostic>) -> Seq<DiagView> {
    Seq::new(items.len(), |i: int| items[i]@)
}

impl View for Report {
    type V = Seq<DiagView>;

    open spec fn view(&self) -> Seq<DiagView> {
        diag_views(self.items@)
    }
}

impl Report {
    /// A report without findings.
    pub fn new() -> (r: Report)
        ensures
            r@ == clean(),
    {
        let r = Report { items: Vec::new() };
        proof {
            assert(r@ =~= clean());
        }
        r
    }

    /// A report with one finding in the entry file.
    pub fn one(rule: &'static str, message: String, line: usize) -> (r: Report)
        ensures
            r@ == found(rule@, message@, line as nat),
    {
        let mut items: Vec<Diagnostic> = Vec::new();
        items.push(Diagnostic { file: String::new(), line, rule, message });
        let r = Report { items };
        proof {
            assert(r@ =~= found(rule@, message@, line as nat));
        }
        r
    }

    /// A report with one finding in a named file.
    pub fn at(file: String, line: usize, rule: &'static str, message: String) -> (r: Report)
        ensures
            r@ == found_in(file@, line as nat, rule@, message@),
    {
        let mut items: Vec<Diagnostic> = Vec::new();
        items.push(Diagnostic { file, line, rule, message });
        let r = Report { items };
        proof {
            assert(r@ =~= found_in(file@, line as nat, rule@, message@));
        }
        r
    }

    /// Appends the findings of another report.
    pub fn append(&mut self, other: Report)
        ensures
            final(self)@ == old(self)@ + other@,
    {
        let mut rest = other;
        let ghost before = self@;
        let ghost more = rest@;
        self.items.append(&mut rest.items);
        proof {
            assert(self@ =~= before + more);
        }
    }

    /// The number of findings.
    pub fn len(&self) -> (r: usize)
        ensures
            r == self@.len(),
    {
        self.items.len()
    }
}

/// A finding put into a list in line order, behind every one that is not on a later line.
pub open spec fn insert_by_line(list: Seq<DiagView>, d: DiagView) -> Seq<DiagView>
    decreases list.len(),
{
    if list.len() == 0 || list.last().line <= d.line {
        list.push(d)
    } else {
        insert_by_line(list.drop_last(), d).push(list.last())
    }
}

/// The first `n` findings in line order; those on one line keep their order.
pub open spec fn by_line(list: Seq<DiagView>, n: int) -> Seq<DiagView>
    decreases n,
{
    if n <= 0 || n > list.len() {
        Seq::empty()
    } else {
        insert_by_line(by_line(list, n - 1), list[n - 1])
    }
}

/// A list in which no finding stands behind one on a later line.
pub open spec fn lines_ascend(list: Seq<DiagView>) -> bool {
    forall|i: int, j: int| 0 <= i < j < list.len() ==> (#[trigger] list[i]).line <= (
    #[trigger] list[j]).line
}

proof fn lemma_insert_by_line(list: Seq<DiagView>, d: DiagView)
    requires
        lines_ascend(list),
    ensures
        lines_ascend(insert_by_line(list, d)),
        insert_by_line(list, d).to_multiset() =~= list.to_multiset().insert(d),
        forall|k: int|
            0 <= k < insert_by_line(list, d).len() ==> (#[trigger] insert_by_line(list, d)[k] == d
                || list.contains(insert_by_line(list, d)[k])),
    decreases list.len(),
{
    broadcast use vstd::seq_lib::group_to_multiset_ensures;

    let r = insert_by_line(list, d);
    if list.len() == 0 || list.last().line <= d.line {
        assert forall|k: int| 0 <= k < r.len() implies (#[trigger] r[k] == d || list.contains(
            r[k],
        )) by {
            if k < list.len() {
                assert(list[k] == r[k]);
            }
        }
    } else {
        let t = list.drop_last();
        assert(lines_ascend(t)) by {
            assert forall|i: int, j: int| 0 <= i < j < t.len() implies (#[trigger] t[i]).line <= (
            #[trigger] t[j]).line by {
                assert(t[i] == list[i] && t[j] == list[j]);
            }
        }
        lemma_insert_by_line(t, d);
        let s = insert_by_line(t, d);
        assert(list =~= t.push(list.last()));
        assert(list.to_multiset() =~= t.to_multiset().insert(list.last()));
        assert(r.to_multiset() =~= s.to_multiset().insert(list.last()));
        assert forall|i: int, j: int| 0 <= i < j < r.len() implies (#[trigger] r[i]).line <= (
        #[trigger] r[j]).line by {
            if j == r.len() - 1 {
                assert(r[i] == s[i]);
                if s[i] != d {
                    let k = choose|k: int| 0 <= k < t.len() && t[k] == s[i];
                    assert(list[k] == t[k]);
                }
            } else {
                assert(r[i] == s[i] && r[j] == s[j]);
            }
        }
        assert forall|k: int| 0 <= k < r.len() implies (#[trigger] r[k] == d || list.contains(
            r[k],
        )) by {
            if k < s.len() {
                assert(r[k] == s[k]);
                if s[k] != d {
                    let q = choose|q: int| 0 <= q < t.len() && t[q] == s[k];
                    assert(list[q] == t[q]);
                }
            } else {
                assert(list[list.len() - 1] == r[k]);
            }
        }
    }
}

/// Ordering findings by line loses none and adds none, and leaves them in line order.
pub proof fn law_by_line(list: Seq<DiagView>, n: int)
    requires
        0 <= n <= list.len(),
    ensures
        lines_ascend(by_line(list, n)),
        by_line(list, n).to_multiset() =~= list.take(n).to_multiset(),
    decreases n,
{
    broadcast use vstd::seq_lib::group_to_multiset_ensures;

    if n > 0 {
        law_by_line(list, n - 1);
        lemma_insert_by_line(by_line(list, n - 1), list[n - 1]);
        assert(list.take(n) =~= list.take(n - 1).push(list[n - 1]));
    } else {
        assert(list.take(0) =~= Seq::<DiagView>::empty());
    }
}

proof fn lemma_insert_at_line(list: Seq<DiagView>, d: DiagView, k: int)
    requires
        0 <= k <= list.len(),
        forall|j: int| k <= j < list.len() ==> (#[trigger] list[j]).line > d.line,
        k > 0 ==> list[k - 1].line <= d.line,
    ensures
        insert_by_line(list, d) == list.insert(k, d),
    decreases list.len(),
{
    if k == list.len() {
        assert(list.insert(k, d) =~= list.push(d));
    } else {
        let t = list.drop_last();
        assert forall|j: int| k <= j < t.len() implies (#[trigger] t[j]).line > d.line by {
            assert(t[j] == list[j]);
        }
        assert(k > 0 ==> t[k - 1] == list[k - 1]);
        lemma_insert_at_line(t, d, k);
        assert(list.insert(k, d) =~= t.insert(k, d).push(list.last()));
    }
}

/// Orders a report by line, keeping the order of findings on one line.
pub fn sort_by_line(report: Report) -> (r: Vec<Diagnostic>)
    ensures
        diag_views(r@) == by_line(report@, report@.len() as int),
{
    let mut rest: Vec<Diagnostic> = report.items;
    let n: usize = rest.len();
    let ghost all = diag_views(rest@);
    let mut out: Vec<Diagnostic> = Vec::new();
    let mut i: usize = 0;
    proof {
        assert(diag_views(out@) =~= Seq::empty());
        assert(all =~= diag_views(rest@));
    }
    while i < n
        invariant
            i <= n,
            n == all.len(),
            rest@.len() == n - i,
            diag_views(rest@) =~= all.subrange(i as int, n as int),
            diag_views(out@) == by_line(all, i as int),
        decreases n - i,
    {
        let ghost before_rest = rest@;
        let d = rest.remove(0);
        proof {
            assert(diag_views(before_rest)[0] == d@);
            assert(d@ == all[i as int]);
            assert(diag_views(rest@) =~= all.subrange(i + 1, n as int)) by {
                assert forall|j: int| 0 <= j < rest@.len() implies diag_views(rest@)[j] == all[i + 1
                    + j] by {
                    assert(rest@[j] == before_rest[j + 1]);
                    assert(diag_views(before_rest)[j + 1] == all[i + 1 + j]);
                }
            }
        }
        let mut k: usize = out.len();
        while k > 0 && out[k - 1].line > d.line
            invariant
                k <= out@.len(),
                forall|j: int| k <= j < out@.len() ==> (#[trigger] diag_views(out@)[j]).line > d@.line,
            decreases k,
        {
            proof {
                assert(diag_views(out@)[k - 1].line == out@[k - 1].line);
            }
            k = k - 1;
        }
        let ghost before = diag_views(out@);
        let ghost old_out = out@;
        proof {
            if k > 0 {
                assert(before[k - 1].line == old_out[k - 1].line);
            }
            lemma_insert_at_line(before, d@, k as int);
        }
        out.insert(k, d);
        proof {
            assert(diag_views(out@) =~= before.insert(k as int, d@));
        }
        i = i + 1;
    }
    out
}

/// The file that a finding points at: its own, or the entry file where it names none.
pub open spec fn place_of(d: DiagView, entry: Seq<char>) -> Seq<char> {
    if d.file.len() == 0 {
        entry
    } else {
        d.file
    }
}

/// The lines that a finding is shown as: the rule and message, the place, and the line of its file
/// where the file is there and has that many.
pub open spec fn report_lines(d: DiagView, entry: Seq<char>, sources: Map<Seq<char>, Seq<char>>) -> Seq<
    Seq<char>,
> {
    let path = place_of(d, entry);
    let head = seq![
        "error: ["@ + d.rule + "] "@ + d.message,
        "  --> "@ + path + ":"@ + nat_text(d.line),
    ];
    let lines = lines_of(sources[path]);
    if sources.dom().contains(path) && 1 <= d.line <= lines.len() {
        head + seq![
            "     |"@,
            gutter_text(d.line) + " | "@ + lines[d.line - 1],
            "     |"@,
            ""@,
        ]
    } else {
        head.push(""@)
    }
}

/// The lines that the first `n` findings are shown as.
pub open spec fn report_text(
    ds: Seq<DiagView>,
    n: int,
    entry: Seq<char>,
    sources: Map<Seq<char>, Seq<char>>,
) -> Seq<Seq<char>>
    decreases n,
{
    if n <= 0 || n > ds.len() {
        Seq::empty()
    } else {
        report_text(ds, n - 1, entry, sources) + report_lines(ds[n - 1], entry, sources)
    }
}

/// A line number, right-aligned in four columns.
pub open spec fn gutter_text(line: nat) -> Seq<char> {
    let t = nat_text(line);
    if t.len() >= 4 {
        t
    } else if t.len() == 3 {
        " "@ + t
    } else if t.len() == 2 {
        "  "@ + t
    } else {
        "   "@ + t
    }
}

fn gutter(line: usize) -> (r: String)
    ensures
        r@ == gutter_text(line as nat),
{
    let t = usize_text(line);
    let n: usize = t.as_str().unicode_len();
    if n >= 4 {
        t
    } else if n == 3 {
        cat2(" ", &t)
    } else if n == 2 {
        cat2("  ", &t)
    } else {
        cat2("   ", &t)
    }
}

fn render(d: &Diagnostic, entry: &str, sources: &StrMap<String>) -> (r: Parts)
    ensures
        r@ == report_lines(d@, entry@, sources@),
{
    let mut out = Parts::new();
    let path = if d.file.as_str().unicode_len() == 0 {
        entry
    } else {
        d.file.as_str()
    };
    out.push(cat4("error: [", d.rule, "] ", &d.message));
    out.push(cat4("  --> ", path, ":", &usize_text(d.line)));
    if let Some(text) = sources.get(path) {
        let lines = split_lines(text);
        if 1 <= d.line && d.line <= lines.len() {
            out.push("     |".to_owned());
            out.push(cat3(&gutter(d.line), " | ", lines.get(d.line - 1)));
            out.push("     |".to_owned());
        }
    }
    out.push("".to_owned());
    proof {
        assert(out@ =~= report_lines(d@, entry@, sources@));
    }
    out
}

/// Shows findings, each with the line that it points at. `sources` holds the files, by their paths.
pub fn report(diags: &Vec<Diagnostic>, entry_path: &str, sources: &StrMap<String>) -> (r: Parts)
    ensures
        r@ == report_text(diag_views(diags@), diags@.len() as int, entry_path@, sources@),
{
    let mut out = Parts::new();
    let mut i: usize = 0;
    while i < diags.len()
        invariant
            i <= diags@.len(),
            out@ == report_text(diag_views(diags@), i as int, entry_path@, sources@),
        decreases diags.len() - i,
    {
        out.extend(render(&diags[i], entry_path, sources));
        i = i + 1;
    }
    out
}

} // verus!
