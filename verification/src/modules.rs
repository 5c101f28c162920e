//! The module loader: import edges, capability grants, visibility, and one merged program.
use vstd::prelude::*;
use vstd::string::*;

use crate::analysis::{is_text_among, text_among};
use crate::ast::{
    ApiNode, ApiRoute, EndpointNode, EnumNode, FunctionNode, ModelNode, PropertyNode, ScreenNode,
    StateNode, StyleNode, SyncedStateNode, ThemeNode, ThemeToken, XeresProgram,
};
use crate::caps::{cap_label, cap_text, stmts_need, stmts_reach, Cap};
use crate::diagnostics::{clean, diag_views, found_in, DiagView, Diagnostic, Report};
use crate::lower::{copy_param, copy_params, copy_texts};
use crate::order::{is_before, text_lt};
use crate::qualify::{
    function_rows, qual_diags, qual_stmts, qual_views, resolves, rewrite_expr, rewrite_stmts,
    rewrite_views, stmts_resolve, views_resolve, Caller, CallerView, Directory, DirectoryView,
    FunctionRow, FunctionRowView, ModuleRow, ModuleRowView,
};
use crate::resolve::{copy_opt, opt_text};
use crate::text::{
    after_prefix, cat3, cat4, cat5, cat7, cat9, chars_of, same, slice_text, strip_prefix, Parts,
};

verus! {

/// One import edge of a source file, as it resolves: the key of the file that it leads to, and the
/// path that messages show for it.
pub struct Child {
    pub key: String,
    pub display: String,
}

/// What a source file holds: a parsed program with its import edges in order, or the reason why it
/// could not be read.
pub enum Content {
    Parsed { program: XeresProgram, children: Vec<Child> },
    Unreadable(String),
}

/// A source file. Its key is its canonical path, or `std:` and a name for a module of the standard
/// library.
pub struct SourceFile {
    pub key: String,
    pub content: Content,
}

/// A loaded file: its index among the source files, and the path that messages show for it.
pub struct Visit {
    pub file: usize,
    pub display: String,
}

/// A loaded file, by its texts.
pub struct VisitView {
    pub file: int,
    pub display: Seq<char>,
}

impl View for Visit {
    type V = VisitView;

    open spec fn view(&self) -> VisitView {
        VisitView { file: self.file as int, display: self.display@ }
    }
}

/// The loaded files, by their texts.
pub open spec fn visit_views(vs: Seq<Visit>) -> Seq<VisitView> {
    Seq::new(vs.len(), |i: int| vs[i]@)
}

/// The state of a load: the files in load order, the findings, and the file that is needed next.
pub struct LoadState {
    pub order: Vec<Visit>,
    pub errors: Report,
    pub need: Option<(String, String)>,
}

/// The state of a load, by its texts.
pub struct LoadView {
    pub order: Seq<VisitView>,
    pub errors: Seq<DiagView>,
    pub need: Option<(Seq<char>, Seq<char>)>,
}

/// A pair of texts.
pub open spec fn pair_text(p: Option<(String, String)>) -> Option<(Seq<char>, Seq<char>)> {
    match p {
        Some((a, b)) => Some((a@, b@)),
        None => None,
    }
}

impl View for LoadState {
    type V = LoadView;

    open spec fn view(&self) -> LoadView {
        LoadView {
            order: visit_views(self.order@),
            errors: self.errors@,
            need: pair_text(self.need),
        }
    }
}

/// The index of the last of these characters before `n`, or `None`.
pub open spec fn last_char(s: Seq<char>, c: char, n: int) -> Option<int>
    decreases n,
{
    if n <= 0 || n > s.len() {
        None
    } else if s[n - 1] == c {
        Some(n - 1)
    } else {
        last_char(s, c, n - 1)
    }
}

proof fn lemma_last_char(s: Seq<char>, c: char, n: int)
    ensures
        last_char(s, c, n) is Some ==> 0 <= last_char(s, c, n)->0 < n && last_char(s, c, n)->0
            < s.len(),
    decreases n,
{
    if n > 0 && n <= s.len() && s[n - 1] != c {
        lemma_last_char(s, c, n - 1);
    }
}

fn find_last(b: &Vec<char>, c: char) -> (r: Option<usize>)
    ensures
        match r {
            Some(i) => last_char(b@, c, b@.len() as int) == Some(i as int) && i < b@.len(),
            None => last_char(b@, c, b@.len() as int) is None,
        },
{
    let mut n: usize = b.len();
    while n > 0
        invariant
            n <= b@.len(),
            last_char(b@, c, b@.len() as int) == last_char(b@, c, n as int),
        decreases n,
    {
        if b[n - 1] == c {
            return Some(n - 1);
        }
        n = n - 1;
    }
    None
}

/// The last segment of a `/`-separated path.
pub open spec fn last_segment(path: Seq<char>) -> Seq<char> {
    match last_char(path, '/', path.len() as int) {
        Some(i) => path.subrange(i + 1, path.len() as int),
        None => path,
    }
}

/// A file name without its extension. A name that only starts with a dot has none.
pub open spec fn stem(name: Seq<char>) -> Seq<char> {
    match last_char(name, '.', name.len() as int) {
        Some(i) => if i > 0 {
            name.subrange(0, i)
        } else {
            name
        },
        None => name,
    }
}

/// The name of the module in a file: what stands behind `std:`, or the file's name without its
/// extension.
pub open spec fn module_text(key: Seq<char>) -> Seq<char> {
    match after_prefix(key, "std:"@) {
        Some(m) => m,
        None => stem(last_segment(key)),
    }
}

/// The name of the module in a file.
pub fn module_name(key: &str) -> (r: String)
    ensures
        r@ == module_text(key@),
{
    if let Some(m) = strip_prefix(key, "std:") {
        return m.to_owned();
    }
    let b = chars_of(key);
    let n: usize = b.len();
    let name = match find_last(&b, '/') {
        Some(i) => slice_text(&b, i + 1, n),
        None => key.to_owned(),
    };
    let c = chars_of(&name);
    match find_last(&c, '.') {
        Some(i) => if i > 0 {
            slice_text(&c, 0, i)
        } else {
            name
        },
        None => name,
    }
}

/// The index of the first source file of this key from `i` on.
pub open spec fn file_index(files: Seq<SourceFile>, key: Seq<char>, i: int) -> Option<int>
    decreases files.len() - i,
{
    if i < 0 || i >= files.len() {
        None
    } else if files[i].key@ == key {
        Some(i)
    } else {
        file_index(files, key, i + 1)
    }
}

fn find_file(files: &Vec<SourceFile>, key: &str) -> (r: Option<usize>)
    ensures
        match r {
            Some(i) => file_index(files@, key@, 0) == Some(i as int) && i < files@.len(),
            None => file_index(files@, key@, 0) is None,
        },
{
    let mut i: usize = 0;
    while i < files.len()
        invariant
            i <= files.len(),
            file_index(files@, key@, 0) == file_index(files@, key@, i as int),
        decreases files.len() - i,
    {
        if same(&files[i].key, key) {
            return Some(i);
        }
        i = i + 1;
    }
    None
}

/// Whether a file of this key is loaded.
pub open spec fn is_loaded(files: Seq<SourceFile>, order: Seq<VisitView>, key: Seq<char>) -> bool {
    exists|i: int| 0 <= i < order.len() && files[(#[trigger] order[i]).file].key@ == key
}

/// Whether every loaded file is one of the source files, and parsed.
pub open spec fn visits_ok(files: Seq<SourceFile>, order: Seq<VisitView>) -> bool {
    forall|i: int|
        0 <= i < order.len() ==> 0 <= (#[trigger] order[i]).file < files.len()
            && files[order[i].file].content is Parsed
}

fn loaded_already(files: &Vec<SourceFile>, order: &Vec<Visit>, key: &str) -> (r: bool)
    requires
        visits_ok(files@, visit_views(order@)),
    ensures
        r == is_loaded(files@, visit_views(order@), key@),
{
    let mut i: usize = 0;
    while i < order.len()
        invariant
            i <= order.len(),
            visits_ok(files@, visit_views(order@)),
            forall|j: int|
                0 <= j < i ==> files@[(#[trigger] visit_views(order@)[j]).file].key@ != key@,
        decreases order.len() - i,
    {
        proof {
            assert(visit_views(order@)[i as int].file == order@[i as int].file);
        }
        if same(&files[order[i].file].key, key) {
            return true;
        }
        i = i + 1;
    }
    false
}

/// The finding on a file that cannot be read.
pub open spec fn unreadable_diag(key: Seq<char>, display: Seq<char>, reason: Seq<char>) -> Seq<
    DiagView,
> {
    match after_prefix(key, "std:"@) {
        Some(m) => found_in(
            display,
            1,
            "R35 module-visibility"@,
            "unknown stdlib module `"@ + display + "` — there is no `std:"@ + m + "`."@,
        ),
        None => found_in(
            display,
            1,
            "R35 module-visibility"@,
            "cannot read module `"@ + display + "`: "@ + reason,
        ),
    }
}

fn unreadable(key: &str, display: &str, reason: &str) -> (r: Report)
    ensures
        r@ == unreadable_diag(key@, display@, reason@),
{
    match strip_prefix(key, "std:") {
        Some(m) => Report::at(
            display.to_owned(),
            1,
            "R35 module-visibility",
            cat5("unknown stdlib module `", display, "` — there is no `std:", m, "`."),
        ),
        None => Report::at(
            display.to_owned(),
            1,
            "R35 module-visibility",
            cat4("cannot read module `", display, "`: ", reason),
        ),
    }
}

/// The finding on an import that leads back to a file that is being loaded.
pub open spec fn cycle_diag(display: Seq<char>) -> Seq<DiagView> {
    found_in(
        display,
        1,
        "R35 module-visibility"@,
        "import cycle detected at `"@ + display
            + "` — modules may not import each other circularly."@,
    )
}

/// Loads the file of a key and what it imports, depth first. `stack` holds the keys of the files
/// that are being loaded; no path of imports is longer than there are files.
pub open spec fn load_file(
    files: Seq<SourceFile>,
    key: Seq<char>,
    display: Seq<char>,
    stack: Seq<Seq<char>>,
    st: LoadView,
) -> LoadView
    decreases files.len() + 1 - stack.len(), 0int,
{
    if st.need is Some || is_loaded(files, st.order, key) {
        st
    } else if stack.contains(key) {
        LoadView { errors: st.errors + cycle_diag(display), ..st }
    } else {
        match file_index(files, key, 0) {
            None => LoadView { need: Some((key, display)), ..st },
            Some(i) => match files[i].content {
                Content::Unreadable(reason) => LoadView {
                    errors: st.errors + unreadable_diag(key, display, reason@),
                    ..st
                },
                Content::Parsed { program, children } => if stack.len() > files.len() {
                    st
                } else {
                    let behind = load_children(
                        files,
                        children@,
                        children@.len() as int,
                        stack.push(key),
                        st,
                    );
                    if behind.need is Some {
                        behind
                    } else {
                        LoadView { order: behind.order.push(VisitView { file: i, display }), ..behind }
                    }
                },
            },
        }
    }
}

/// Loads the first `n` files that a file imports.
pub open spec fn load_children(
    files: Seq<SourceFile>,
    children: Seq<Child>,
    n: int,
    stack: Seq<Seq<char>>,
    st: LoadView,
) -> LoadView
    decreases files.len() + 1 - stack.len(), n,
{
    if n <= 0 || n > children.len() || stack.len() > files.len() + 1 {
        st
    } else {
        load_file(
            files,
            children[n - 1].key@,
            children[n - 1].display@,
            stack,
            load_children(files, children, n - 1, stack, st),
        )
    }
}

proof fn lemma_visits_push(files: Seq<SourceFile>, order: Seq<VisitView>, v: VisitView)
    requires
        visits_ok(files, order),
        0 <= v.file < files.len(),
        files[v.file].content is Parsed,
    ensures
        visits_ok(files, order.push(v)),
{
    assert forall|i: int| 0 <= i < order.push(v).len() implies 0 <= (#[trigger] order.push(
        v,
    )[i]).file < files.len() && files[order.push(v)[i].file].content is Parsed by {
        if i < order.len() {
            assert(order.push(v)[i] == order[i]);
        }
    }
}

fn load_all(
    files: &Vec<SourceFile>,
    children: &Vec<Child>,
    stack: &Parts,
    st: &mut LoadState,
)
    requires
        stack@.len() <= files@.len() + 1,
        visits_ok(files@, old(st)@.order),
    ensures
        final(st)@ == load_children(
            files@,
            children@,
            children@.len() as int,
            stack@,
            old(st)@,
        ),
        visits_ok(files@, final(st)@.order),
    decreases files@.len() + 1 - stack@.len(), children@.len() + 1,
{
    let ghost before = st@;
    let mut i: usize = 0;
    while i < children.len()
        invariant
            i <= children.len(),
            stack@.len() <= files@.len() + 1,
            st@ == load_children(files@, children@, i as int, stack@, before),
            visits_ok(files@, st@.order),
        decreases children.len() - i,
    {
        load_recursive(files, &children[i].key, &children[i].display, stack, st);
        i = i + 1;
    }
}

/// Loads the file of a key and what it imports, depth first.
pub fn load_recursive(
    files: &Vec<SourceFile>,
    key: &str,
    display: &str,
    stack: &Parts,
    st: &mut LoadState,
)
    requires
        visits_ok(files@, old(st)@.order),
        stack@.len() <= files@.len() + 1,
    ensures
        final(st)@ == load_file(files@, key@, display@, stack@, old(st)@),
        visits_ok(files@, final(st)@.order),
    decreases files@.len() + 1 - stack@.len(), 0int,
{
    if st.need.is_some() || loaded_already(files, &st.order, key) {
        return;
    }
    if stack.contains(key) {
        st.errors.append(
            Report::at(
                display.to_owned(),
                1,
                "R35 module-visibility",
                cat3(
                    "import cycle detected at `",
                    display,
                    "` — modules may not import each other circularly.",
                ),
            ),
        );
        return;
    }
    match find_file(files, key) {
        None => {
            st.need = Some((key.to_owned(), display.to_owned()));
        },
        Some(i) => match &files[i].content {
            Content::Unreadable(reason) => {
                st.errors.append(unreadable(key, display, reason));
            },
            Content::Parsed { program, children } => {
                if stack.len() > files.len() {
                    return;
                }
                let mut deeper = stack.copy();
                deeper.push(key.to_owned());
                load_all(files, children, &deeper, st);
                if st.need.is_some() {
                    return;
                }
                let ghost order = st@.order;
                let v = Visit { file: i, display: display.to_owned() };
                proof {
                    lemma_visits_push(files@, order, v@);
                }
                st.order.push(v);
                proof {
                    assert(visit_views(st.order@) =~= order.push(v@));
                }
            },
        },
    }
}


/// A loaded module: its name, the path that messages show for it, its program, and its import
/// edges.
pub struct Module<'a> {
    pub name: String,
    pub file: String,
    pub program: &'a XeresProgram,
    pub children: &'a Vec<Child>,
}

/// A loaded module, by its texts.
pub struct ModuleView {
    pub name: Seq<char>,
    pub file: Seq<char>,
    pub program: XeresProgram,
    pub children: Seq<Child>,
}

impl<'a> View for Module<'a> {
    type V = ModuleView;

    open spec fn view(&self) -> ModuleView {
        ModuleView {
            name: self.name@,
            file: self.file@,
            program: *self.program,
            children: self.children@,
        }
    }
}

/// The modules of a list, by their texts.
pub open spec fn module_views<'a>(ms: Seq<Module<'a>>) -> Seq<ModuleView> {
    Seq::new(ms.len(), |i: int| ms[i]@)
}

/// The module in a loaded file.
pub open spec fn module_at(files: Seq<SourceFile>, v: VisitView) -> ModuleView {
    ModuleView {
        name: module_text(files[v.file].key@),
        file: v.display,
        program: files[v.file].content->program,
        children: files[v.file].content->children@,
    }
}

/// The modules in the loaded files.
pub open spec fn modules_at(files: Seq<SourceFile>, order: Seq<VisitView>) -> Seq<ModuleView> {
    Seq::new(order.len(), |i: int| module_at(files, order[i]))
}

fn collect_modules<'a>(files: &'a Vec<SourceFile>, order: &Vec<Visit>) -> (r: Vec<Module<'a>>)
    requires
        visits_ok(files@, visit_views(order@)),
    ensures
        module_views(r@) == modules_at(files@, visit_views(order@)),
{
    let mut out: Vec<Module<'a>> = Vec::new();
    let mut i: usize = 0;
    while i < order.len()
        invariant
            i <= order.len(),
            visits_ok(files@, visit_views(order@)),
            out@.len() == i,
            forall|j: int|
                0 <= j < i ==> (#[trigger] out@[j])@ == module_at(files@, visit_views(order@)[j]),
        decreases order.len() - i,
    {
        let ghost v = visit_views(order@)[i as int];
        proof {
            assert(v.file == order@[i as int].file);
        }
        let f = &files[order[i].file];
        if let Content::Parsed { program, children } = &f.content {
            out.push(
                Module {
                    name: module_name(&f.key),
                    file: order[i].display.clone(),
                    program,
                    children,
                },
            );
        }
        i = i + 1;
    }
    proof {
        assert(module_views(out@) =~= modules_at(files@, visit_views(order@)));
    }
    out
}

/// The modules with the entry first. The entry is the root of the imports, so it is loaded last.
pub open spec fn entry_first(ms: Seq<ModuleView>) -> Seq<ModuleView> {
    seq![ms.last()] + ms.drop_last()
}

fn put_entry_first<'a>(ms: Vec<Module<'a>>) -> (r: Vec<Module<'a>>)
    requires
        ms@.len() > 0,
    ensures
        module_views(r@) == entry_first(module_views(ms@)),
{
    let mut out = ms;
    let n: usize = out.len();
    let last = out.remove(n - 1);
    out.insert(0, last);
    proof {
        assert(module_views(out@) =~= entry_first(module_views(ms@)));
    }
    out
}

/// The file of the last of the first `n` modules with this name.
pub open spec fn earlier_file(ms: Seq<ModuleView>, n: int, name: Seq<char>) -> Option<Seq<char>>
    decreases n,
{
    if n <= 0 || n > ms.len() {
        None
    } else if ms[n - 1].name == name {
        Some(ms[n - 1].file)
    } else {
        earlier_file(ms, n - 1, name)
    }
}

fn find_earlier<'a, 'b>(ms: &'b Vec<Module<'a>>, n: usize, name: &str) -> (r: Option<&'b String>)
    requires
        n <= ms.len(),
    ensures
        match r {
            Some(f) => earlier_file(module_views(ms@), n as int, name@) == Some(f@),
            None => earlier_file(module_views(ms@), n as int, name@) is None,
        },
{
    let mut k: usize = n;
    while k > 0
        invariant
            k <= n,
            n <= ms.len(),
            earlier_file(module_views(ms@), n as int, name@) == earlier_file(module_views(ms@), k as int, name@),
        decreases k,
    {
        if same(&ms[k - 1].name, name) {
            return Some(&ms[k - 1].file);
        }
        k = k - 1;
    }
    None
}

/// The first `n` modules whose name another file has too.
pub open spec fn unique_diags(list: Seq<ModuleView>, n: int) -> Seq<DiagView>
    decreases n,
{
    if n <= 0 || n > list.len() {
        clean()
    } else {
        unique_diags(list, n - 1) + (match earlier_file(list, n - 1, list[n - 1].name) {
            Some(prev) => found_in(
                list[n - 1].file,
                1,
                "R35 module-visibility"@,
                "module name `"@ + list[n - 1].name + "` is used by two files (`"@ + prev
                    + "` and `"@ + list[n - 1].file + "`) — module names must be unique."@,
            ),
            None => clean(),
        })
    }
}

fn check_unique<'a>(list: &Vec<Module<'a>>) -> (r: Report)
    ensures
        r@ == unique_diags(module_views(list@), list.len() as int),
{
    let mut out = Report::new();
    let mut i: usize = 0;
    while i < list.len()
        invariant
            i <= list.len(),
            out@ == unique_diags(module_views(list@), i as int),
        decreases list.len() - i,
    {
        let d = match find_earlier(list, i, &list[i].name) {
            Some(prev) => Report::at(
                list[i].file.clone(),
                1,
                "R35 module-visibility",
                cat7(
                    "module name `",
                    &list[i].name,
                    "` is used by two files (`",
                    prev,
                    "` and `",
                    &list[i].file,
                    "`) — module names must be unique.",
                ),
            ),
            None => Report::new(),
        };
        out.append(d);
        i = i + 1;
    }
    out
}

/// R34: a capability is one that there is.
pub open spec fn cap_name_diags(cap: Seq<char>, file: Seq<char>, line: nat) -> Seq<DiagView> {
    if cap == "db"@ || cap == "session"@ || cap == "endpoint"@ {
        clean()
    } else {
        found_in(
            file,
            line,
            "R34 module-capability"@,
            "unknown capability `"@ + cap
                + "` — the Located capabilities are: db, session, endpoint."@,
        )
    }
}

/// R34: checks the name of a capability.
pub fn check_cap_name(cap: &str, file: &str, line: usize) -> (r: Report)
    ensures
        r@ == cap_name_diags(cap@, file@, line as nat),
{
    if same(cap, "db") || same(cap, "session") || same(cap, "endpoint") {
        Report::new()
    } else {
        Report::at(
            file.to_owned(),
            line,
            "R34 module-capability",
            cat3(
                "unknown capability `",
                cap,
                "` — the Located capabilities are: db, session, endpoint.",
            ),
        )
    }
}

/// What a capability stands for, in a message.
pub open spec fn cap_explain_text(cap: Seq<char>) -> Seq<char> {
    if cap == "db"@ {
        "the database connection"@
    } else if cap == "session"@ {
        "the authenticated session"@
    } else if cap == "endpoint"@ {
        "outbound HTTP"@
    } else {
        "a Located capability"@
    }
}

/// What a capability stands for, in a message.
pub fn cap_explain(cap: &str) -> (r: &'static str)
    ensures
        r@ == cap_explain_text(cap@),
{
    if same(cap, "db") {
        "the database connection"
    } else if same(cap, "session") {
        "the authenticated session"
    } else if same(cap, "endpoint") {
        "outbound HTTP"
    } else {
        "a Located capability"
    }
}

/// R34 on the first `n` capabilities of a set; a repeated one counts once.
pub open spec fn cap_names_diags(list: Seq<String>, n: int, file: Seq<char>, line: nat) -> Seq<DiagView>
    decreases n,
{
    if n <= 0 || n > list.len() {
        clean()
    } else {
        cap_names_diags(list, n - 1, file, line) + (if text_among(list, n - 1, list[n - 1]@) {
            clean()
        } else {
            cap_name_diags(list[n - 1]@, file, line)
        })
    }
}

fn check_cap_names(list: &Vec<String>, file: &str, line: usize) -> (r: Report)
    ensures
        r@ == cap_names_diags(list@, list@.len() as int, file@, line as nat),
{
    let mut out = Report::new();
    let mut i: usize = 0;
    while i < list.len()
        invariant
            i <= list.len(),
            out@ == cap_names_diags(list@, i as int, file@, line as nat),
        decreases list.len() - i,
    {
        let d = if is_text_among(list, i, &list[i]) {
            Report::new()
        } else {
            check_cap_name(&list[i], file, line)
        };
        out.append(d);
        i = i + 1;
    }
    out
}

/// R34 on the `requires` of the first `n` modules.
pub open spec fn requires_diags(list: Seq<ModuleView>, n: int) -> Seq<DiagView>
    decreases n,
{
    if n <= 0 || n > list.len() {
        clean()
    } else {
        requires_diags(list, n - 1) + cap_names_diags(
            list[n - 1].program.requires_caps@,
            list[n - 1].program.requires_caps@.len() as int,
            list[n - 1].file,
            1,
        )
    }
}

fn check_requires<'a>(list: &Vec<Module<'a>>) -> (r: Report)
    ensures
        r@ == requires_diags(module_views(list@), list.len() as int),
{
    let mut out = Report::new();
    let mut i: usize = 0;
    while i < list.len()
        invariant
            i <= list.len(),
            out@ == requires_diags(module_views(list@), i as int),
        decreases list.len() - i,
    {
        let d = check_cap_names(&list[i].program.requires_caps, &list[i].file, 1);
        out.append(d);
        i = i + 1;
    }
    out
}

/// R34: the first `n` capabilities that a module requires and an import does not grant.
pub open spec fn ungranted_diags(list: Seq<String>, n: int, grants: Seq<String>, child: Seq<char>, file: Seq<char>, line: nat) -> Seq<DiagView>
    decreases n,
{
    if n <= 0 || n > list.len() {
        clean()
    } else {
        ungranted_diags(list, n - 1, grants, child, file, line) + (if text_among(list, n - 1, list[n - 1]@) || text_among(
            grants,
            grants.len() as int,
            list[n - 1]@,
        ) {
            clean()
        } else {
            found_in(
                file,
                line,
                "R34 module-capability"@,
                "module `"@ + child + "` requires the `"@ + list[n - 1]@
                    + "` capability, but this import doesn't grant it — add `grant "@ + list[n - 1]@
                    + "` (you are authorizing a dependency to use "@ + cap_explain_text(
                    list[n - 1]@,
                ) + ")."@,
            )
        })
    }
}

fn check_ungranted(list: &Vec<String>, grants: &Vec<String>, child: &str, file: &str, line: usize) -> (r: Report)
    ensures
        r@ == ungranted_diags(list@, list@.len() as int, grants@, child@, file@, line as nat),
{
    let mut out = Report::new();
    let mut i: usize = 0;
    while i < list.len()
        invariant
            i <= list.len(),
            out@ == ungranted_diags(list@, i as int, grants@, child@, file@, line as nat),
        decreases list.len() - i,
    {
        let d = if is_text_among(list, i, &list[i]) || is_text_among(grants, grants.len(), &list[i]) {
            Report::new()
        } else {
            Report::at(
                file.to_owned(),
                line,
                "R34 module-capability",
                cat9(
                    "module `",
                    child,
                    "` requires the `",
                    &list[i],
                    "` capability, but this import doesn't grant it — add `grant ",
                    &list[i],
                    "` (you are authorizing a dependency to use ",
                    cap_explain(&list[i]),
                    ").",
                ),
            )
        };
        out.append(d);
        i = i + 1;
    }
    out
}

/// The index of the last of the first `n` modules with this name.
pub open spec fn module_index(ms: Seq<ModuleView>, name: Seq<char>, n: int) -> Option<int>
    decreases n,
{
    if n <= 0 || n > ms.len() {
        None
    } else if ms[n - 1].name == name {
        Some(n - 1)
    } else {
        module_index(ms, name, n - 1)
    }
}

fn find_module<'a>(ms: &Vec<Module<'a>>, name: &str) -> (r: Option<usize>)
    ensures
        match r {
            Some(i) => module_index(module_views(ms@), name@, ms.len() as int) == Some(i as int) && i < ms.len(),
            None => module_index(module_views(ms@), name@, ms.len() as int) is None,
        },
{
    let mut k: usize = ms.len();
    while k > 0
        invariant
            k <= ms.len(),
            module_index(module_views(ms@), name@, ms.len() as int) == module_index(module_views(ms@), name@, k as int),
        decreases k,
    {
        if same(&ms[k - 1].name, name) {
            return Some(k - 1);
        }
        k = k - 1;
    }
    None
}

/// The capabilities that a module requires.
pub open spec fn required_caps(ms: Seq<ModuleView>, name: Seq<char>) -> Seq<String> {
    match module_index(ms, name, ms.len() as int) {
        Some(i) => ms[i].program.requires_caps@,
        None => Seq::empty(),
    }
}

/// R34 on the first `n` imports of a module: what they grant is a capability, and covers what the
/// imported module requires.
pub open spec fn grants_diags(m: ModuleView, n: int, ms: Seq<ModuleView>) -> Seq<DiagView>
    decreases n,
{
    if n <= 0 || n > m.children.len() || n > m.program.imports@.len() {
        clean()
    } else {
        let im = m.program.imports@[n - 1];
        let child = module_text(m.children[n - 1].key@);
        let required = required_caps(ms, child);
        grants_diags(m, n - 1, ms) + cap_names_diags(
            im.grants@,
            im.grants@.len() as int,
            m.file,
            im.line as nat,
        ) + ungranted_diags(
            required,
            required.len() as int,
            im.grants@,
            child,
            m.file,
            im.line as nat,
        )
    }
}

/// The number of import edges of a module.
pub open spec fn edge_count(m: ModuleView) -> int {
    if m.children.len() < m.program.imports@.len() {
        m.children.len() as int
    } else {
        m.program.imports@.len() as int
    }
}

fn count_edges<'a>(m: &Module<'a>) -> (r: usize)
    ensures
        r == edge_count(m@),
{
    if m.children.len() < m.program.imports.len() {
        m.children.len()
    } else {
        m.program.imports.len()
    }
}

fn check_grants<'a>(m: &Module<'a>, ms: &Vec<Module<'a>>) -> (r: Report)
    ensures
        r@ == grants_diags(m@, edge_count(m@), module_views(ms@)),
{
    let mut out = Report::new();
    let n: usize = count_edges(m);
    let mut i: usize = 0;
    while i < n
        invariant
            i <= n,
            n == edge_count(m@),
            out@ == grants_diags(m@, i as int, module_views(ms@)),
        decreases n - i,
    {
        let im = &m.program.imports[i];
        let child = module_name(&m.children[i].key);
        out.append(check_cap_names(&im.grants, &m.file, im.line));
        let none: Vec<String> = Vec::new();
        let required = match find_module(ms, &child) {
            Some(k) => &ms[k].program.requires_caps,
            None => &none,
        };
        proof {
            assert(required@ =~= required_caps(module_views(ms@), child@));
        }
        out.append(check_ungranted(required, &im.grants, &child, &m.file, im.line));
        i = i + 1;
    }
    out
}

/// R34 on the imports of the first `n` modules.
pub open spec fn all_grants_diags(list: Seq<ModuleView>, n: int) -> Seq<DiagView>
    decreases n,
{
    if n <= 0 || n > list.len() {
        clean()
    } else {
        all_grants_diags(list, n - 1) + grants_diags(list[n - 1], edge_count(list[n - 1]), list)
    }
}

fn check_all_grants<'a>(list: &Vec<Module<'a>>) -> (r: Report)
    ensures
        r@ == all_grants_diags(module_views(list@), list.len() as int),
{
    let mut out = Report::new();
    let mut i: usize = 0;
    while i < list.len()
        invariant
            i <= list.len(),
            out@ == all_grants_diags(module_views(list@), i as int),
        decreases list.len() - i,
    {
        let d = check_grants(&list[i], list);
        out.append(d);
        i = i + 1;
    }
    out
}

/// The names of the endpoints of the first `n` modules.
pub open spec fn endpoint_names(ms: Seq<ModuleView>, n: int) -> Seq<Seq<char>>
    decreases n,
{
    if n <= 0 || n > ms.len() {
        Seq::empty()
    } else {
        endpoint_names(ms, n - 1) + names_of(
            ms[n - 1].program.endpoints@,
            ms[n - 1].program.endpoints@.len() as int,
        )
    }
}

/// The names of the first `n` endpoints.
pub open spec fn names_of(es: Seq<EndpointNode>, n: int) -> Seq<Seq<char>>
    decreases n,
{
    if n <= 0 || n > es.len() {
        Seq::empty()
    } else {
        names_of(es, n - 1).push(es[n - 1].name@)
    }
}

fn collect_names(es: &Vec<EndpointNode>) -> (r: Parts)
    ensures
        r@ == names_of(es@, es@.len() as int),
{
    let mut out = Parts::new();
    let mut i: usize = 0;
    while i < es.len()
        invariant
            i <= es.len(),
            out@ == names_of(es@, i as int),
        decreases es.len() - i,
    {
        out.push(es[i].name.clone());
        i = i + 1;
    }
    out
}

fn collect_endpoints<'a>(ms: &Vec<Module<'a>>) -> (r: Parts)
    ensures
        r@ == endpoint_names(module_views(ms@), ms.len() as int),
{
    let mut out = Parts::new();
    let mut i: usize = 0;
    while i < ms.len()
        invariant
            i <= ms.len(),
            out@ == endpoint_names(module_views(ms@), i as int),
        decreases ms.len() - i,
    {
        out.extend(collect_names(&ms[i].program.endpoints));
        i = i + 1;
    }
    out
}

/// Whether a body reaches for any capability.
pub open spec fn needs_any(f: FunctionNode, eps: Seq<Seq<char>>) -> bool {
    stmts_need(f.body@, Cap::Db, eps) || stmts_need(f.body@, Cap::Session, eps) || stmts_need(
        f.body@,
        Cap::Endpoint,
        eps,
    )
}

/// Whether a module reaches for a capability: in a function, or by declaring an endpoint.
pub open spec fn module_needs(p: XeresProgram, c: Cap, eps: Seq<Seq<char>>) -> bool {
    ||| exists|i: int|
        0 <= i < p.functions@.len() && stmts_need((#[trigger] p.functions@[i]).body@, c, eps)
    ||| c == Cap::Endpoint && p.endpoints@.len() > 0
}

/// The line of the first function from index `i` on that reaches for a capability; behind them, that
/// of the first endpoint.
pub open spec fn use_line(p: XeresProgram, eps: Seq<Seq<char>>, i: int) -> nat
    decreases p.functions@.len() - i,
{
    if 0 <= i < p.functions@.len() {
        if needs_any(p.functions@[i], eps) {
            p.functions@[i].line as nat
        } else {
            use_line(p, eps, i + 1)
        }
    } else if p.endpoints@.len() > 0 {
        p.endpoints@[0].line as nat
    } else {
        1
    }
}

fn module_reaches(p: &XeresProgram, c: Cap, eps: &Parts) -> (r: bool)
    ensures
        r == module_needs(*p, c, eps@),
{
    let mut i: usize = 0;
    while i < p.functions.len()
        invariant
            i <= p.functions.len(),
            forall|j: int|
                0 <= j < i ==> !stmts_need((#[trigger] p.functions@[j]).body@, c, eps@),
        decreases p.functions.len() - i,
    {
        if stmts_reach(&p.functions[i].body, c, eps) {
            return true;
        }
        i = i + 1;
    }
    c == Cap::Endpoint && p.endpoints.len() > 0
}

fn find_use_line(p: &XeresProgram, eps: &Parts) -> (r: usize)
    ensures
        r == use_line(*p, eps@, 0),
{
    let mut i: usize = 0;
    while i < p.functions.len()
        invariant
            i <= p.functions.len(),
            use_line(*p, eps@, 0) == use_line(*p, eps@, i as int),
        decreases p.functions.len() - i,
    {
        let b = &p.functions[i].body;
        if stmts_reach(b, Cap::Db, eps) || stmts_reach(b, Cap::Session, eps) || stmts_reach(
            b,
            Cap::Endpoint,
            eps,
        ) {
            return p.functions[i].line;
        }
        i = i + 1;
    }
    if p.endpoints.len() > 0 {
        p.endpoints[0].line
    } else {
        1
    }
}

/// R34: a capability that a module reaches for is one that it declares.
pub open spec fn undeclared_diags(m: ModuleView, c: Cap, eps: Seq<Seq<char>>) -> Seq<DiagView> {
    let caps = m.program.requires_caps@;
    if !module_needs(m.program, c, eps) || text_among(caps, caps.len() as int, cap_text(c)) {
        clean()
    } else {
        found_in(
            m.file,
            use_line(m.program, eps, 0),
            "R34 module-capability"@,
            "module `"@ + m.name + "` uses the `"@ + cap_text(c)
                + "` capability but doesn't declare it — add `requires "@ + cap_text(c)
                + "` at the top of the module. An imported module's authority must be explicit (and the importing app must `grant "@
                + cap_text(c) + "`)."@,
        )
    }
}

fn check_undeclared<'a>(m: &Module<'a>, c: Cap, eps: &Parts) -> (r: Report)
    ensures
        r@ == undeclared_diags(m@, c, eps@),
{
    let caps = &m.program.requires_caps;
    if !module_reaches(m.program, c, eps) || is_text_among(caps, caps.len(), cap_label(c)) {
        Report::new()
    } else {
        Report::at(
            m.file.clone(),
            find_use_line(m.program, eps),
            "R34 module-capability",
            cat9(
                "module `",
                &m.name,
                "` uses the `",
                cap_label(c),
                "` capability but doesn't declare it — add `requires ",
                cap_label(c),
                "` at the top of the module. An imported module's authority must be explicit (and the importing app must `grant ",
                cap_label(c),
                "`).",
            ),
        )
    }
}

/// R34 on the first `n` modules but the entry, which is the root of authority.
pub open spec fn authority_diags(
    ms: Seq<ModuleView>,
    n: int,
    entry: Seq<char>,
    eps: Seq<Seq<char>>,
) -> Seq<DiagView>
    decreases n,
{
    if n <= 0 || n > ms.len() {
        clean()
    } else if ms[n - 1].name == entry {
        authority_diags(ms, n - 1, entry, eps)
    } else {
        authority_diags(ms, n - 1, entry, eps) + undeclared_diags(ms[n - 1], Cap::Db, eps)
            + undeclared_diags(ms[n - 1], Cap::Session, eps) + undeclared_diags(
            ms[n - 1],
            Cap::Endpoint,
            eps,
        )
    }
}

fn check_authority<'a>(ms: &Vec<Module<'a>>, entry: &str, eps: &Parts) -> (r: Report)
    ensures
        r@ == authority_diags(module_views(ms@), ms.len() as int, entry@, eps@),
{
    let mut out = Report::new();
    let mut i: usize = 0;
    while i < ms.len()
        invariant
            i <= ms.len(),
            out@ == authority_diags(module_views(ms@), i as int, entry@, eps@),
        decreases ms.len() - i,
    {
        if !same(&ms[i].name, entry) {
            out.append(check_undeclared(&ms[i], Cap::Db, eps));
            out.append(check_undeclared(&ms[i], Cap::Session, eps));
            out.append(check_undeclared(&ms[i], Cap::Endpoint, eps));
        }
        i = i + 1;
    }
    out
}

/// The modules that a module imports.
pub open spec fn imported_names(cs: Seq<Child>, n: int) -> Seq<Seq<char>>
    decreases n,
{
    if n <= 0 || n > cs.len() {
        Seq::empty()
    } else {
        imported_names(cs, n - 1).push(module_text(cs[n - 1].key@))
    }
}

fn collect_imported(cs: &Vec<Child>, n: usize) -> (r: Parts)
    requires
        n <= cs@.len(),
    ensures
        r@ == imported_names(cs@, n as int),
{
    let mut out = Parts::new();
    let mut i: usize = 0;
    while i < n
        invariant
            i <= n,
            n <= cs@.len(),
            out@ == imported_names(cs@, i as int),
        decreases n - i,
    {
        out.push(module_name(&cs[i].key));
        i = i + 1;
    }
    out
}

/// The directory of the modules: each with its imports, and the functions in order.
pub open spec fn directory_of(ms: Seq<ModuleView>) -> DirectoryView {
    DirectoryView {
        modules: Seq::new(
            ms.len(),
            |i: int|
                ModuleRowView {
                    name: ms[i].name,
                    imports: imported_names(ms[i].children, edge_count(ms[i])),
                },
        ),
        functions: functions_in(ms, ms.len() as int),
    }
}

/// The first `n` functions of a module.
pub open spec fn rows_of(fs: Seq<FunctionNode>, n: int, m: Seq<char>) -> Seq<FunctionRowView>
    decreases n,
{
    if n <= 0 || n > fs.len() {
        Seq::empty()
    } else {
        rows_of(fs, n - 1, m).push(
            FunctionRowView { name: fs[n - 1].name@, module: m, is_pub: fs[n - 1].is_pub },
        )
    }
}

/// The functions of the first `n` modules.
pub open spec fn functions_in(ms: Seq<ModuleView>, n: int) -> Seq<FunctionRowView>
    decreases n,
{
    if n <= 0 || n > ms.len() {
        Seq::empty()
    } else {
        functions_in(ms, n - 1) + rows_of(
            ms[n - 1].program.functions@,
            ms[n - 1].program.functions@.len() as int,
            ms[n - 1].name,
        )
    }
}

fn add_rows(fs: &Vec<FunctionNode>, m: &str, out: &mut Vec<FunctionRow>)
    ensures
        function_rows(final(out)@) == function_rows(old(out)@) + rows_of(
            fs@,
            fs@.len() as int,
            m@,
        ),
{
    let ghost before = function_rows(out@);
    let mut i: usize = 0;
    proof {
        assert(before + rows_of(fs@, 0, m@) =~= before);
    }
    while i < fs.len()
        invariant
            i <= fs.len(),
            function_rows(out@) == before + rows_of(fs@, i as int, m@),
        decreases fs.len() - i,
    {
        let ghost prev = out@;
        out.push(
            FunctionRow {
                name: fs[i].name.clone(),
                module: m.to_owned(),
                is_pub: fs[i].is_pub,
            },
        );
        proof {
            let row = FunctionRowView {
                name: fs@[i as int].name@,
                module: m@,
                is_pub: fs@[i as int].is_pub,
            };
            assert(function_rows(out@) =~= function_rows(prev).push(
                row,
            ));
            assert(before + rows_of(fs@, i + 1, m@) =~= (before + rows_of(
                fs@,
                i as int,
                m@,
            )).push(row));
        }
        i = i + 1;
    }
}

fn directory<'a>(ms: &Vec<Module<'a>>) -> (r: Directory)
    ensures
        r@ == directory_of(module_views(ms@)),
{
    let mut modules: Vec<ModuleRow> = Vec::new();
    let mut functions: Vec<FunctionRow> = Vec::new();
    let mut i: usize = 0;
    proof {
        assert(function_rows(functions@) =~= Seq::empty());
    }
    while i < ms.len()
        invariant
            i <= ms.len(),
            modules@.len() == i,
            forall|j: int|
                0 <= j < i ==> (#[trigger] modules@[j]).name@ == ms@[j]@.name
                    && modules@[j].imports@ == imported_names(
                    ms@[j]@.children,
                    edge_count(ms@[j]@),
                ),
            function_rows(functions@) == functions_in(module_views(ms@), i as int),
        decreases ms.len() - i,
    {
        let m = &ms[i];
        modules.push(
            ModuleRow {
                name: m.name.clone(),
                imports: collect_imported(m.children, count_edges(m)),
            },
        );
        add_rows(&m.program.functions, &m.name, &mut functions);
        i = i + 1;
    }
    let r = Directory { modules, functions };
    proof {
        assert(r@.modules =~= directory_of(module_views(ms@)).modules);
    }
    r
}

/// Whether `b` is a declaration of a module, tagged with the module's name (models).
pub open spec fn model_tagged(a: ModelNode, m: Seq<char>, b: ModelNode) -> bool {
    &&& b.name@ == a.name@
    &&& b.properties@ == a.properties@
    &&& b.line == a.line
    &&& b.module@ == m
}

/// The declarations of the first `n` modules, each with its module's name (models).
pub open spec fn model_list(ms: Seq<ModuleView>, n: int) -> Seq<(ModelNode, Seq<char>)>
    decreases n,
{
    if n <= 0 || n > ms.len() {
        Seq::empty()
    } else {
        let own = ms[n - 1].program.models@;
        let name = ms[n - 1].name;
        model_list(ms, n - 1) + Seq::new(own.len(), |i: int| (own[i], name))
    }
}

/// Whether `bs` holds the declarations of all modules, tagged (models).
pub open spec fn model_merged(list: Seq<(ModelNode, Seq<char>)>, bs: Seq<ModelNode>) -> bool {
    list.len() == bs.len() && forall|i: int|
        0 <= i < bs.len() ==> model_tagged(list[i].0, list[i].1, #[trigger] bs[i])
}

fn tag_model(a: &ModelNode, m: &str) -> (r: ModelNode)
    ensures
        model_tagged(*a, m@, r),
{
    ModelNode {
        name: a.name.clone(),
        properties: copy_properties(&a.properties),
        line: a.line,
        module: m.to_owned(),
    }
}

fn merge_models<'a>(ms: &Vec<Module<'a>>) -> (r: Vec<ModelNode>)
    ensures
        model_merged(model_list(module_views(ms@), ms.len() as int), r@),
{
    let mut out: Vec<ModelNode> = Vec::new();
    let mut k: usize = 0;
    while k < ms.len()
        invariant
            k <= ms.len(),
            model_merged(model_list(module_views(ms@), k as int), out@),
        decreases ms.len() - k,
    {
        let own = &ms[k].program.models;
        let ghost before = model_list(module_views(ms@), k as int);
        let ghost list = model_list(module_views(ms@), k + 1);
        let ghost start = out@.len();
        let mut i: usize = 0;
        while i < own.len()
            invariant
                k < ms.len(),
                i <= own@.len(),
                own@ == ms@[k as int].program.models@,
                before == model_list(module_views(ms@), k as int),
                list == model_list(module_views(ms@), k + 1),
                start == before.len(),
                out@.len() == start + i,
                forall|j: int|
                    0 <= j < out@.len() ==> model_tagged(list[j].0, list[j].1, #[trigger] out@[j]),
            decreases own@.len() - i,
        {
            out.push(tag_model(&own[i], &ms[k].name));
            i = i + 1;
        }
        k = k + 1;
    }
    out
}

/// Whether `b` is a declaration of a module, tagged with the module's name (enums).
pub open spec fn enum_tagged(a: EnumNode, m: Seq<char>, b: EnumNode) -> bool {
    &&& b.name@ == a.name@
    &&& b.variants@ == a.variants@
    &&& b.line == a.line
    &&& b.module@ == m
}

/// The declarations of the first `n` modules, each with its module's name (enums).
pub open spec fn enum_list(ms: Seq<ModuleView>, n: int) -> Seq<(EnumNode, Seq<char>)>
    decreases n,
{
    if n <= 0 || n > ms.len() {
        Seq::empty()
    } else {
        let own = ms[n - 1].program.enums@;
        let name = ms[n - 1].name;
        enum_list(ms, n - 1) + Seq::new(own.len(), |i: int| (own[i], name))
    }
}

/// Whether `bs` holds the declarations of all modules, tagged (enums).
pub open spec fn enum_merged(list: Seq<(EnumNode, Seq<char>)>, bs: Seq<EnumNode>) -> bool {
    list.len() == bs.len() && forall|i: int|
        0 <= i < bs.len() ==> enum_tagged(list[i].0, list[i].1, #[trigger] bs[i])
}

fn tag_enum(a: &EnumNode, m: &str) -> (r: EnumNode)
    ensures
        enum_tagged(*a, m@, r),
{
    EnumNode {
        name: a.name.clone(),
        variants: copy_texts(&a.variants),
        line: a.line,
        module: m.to_owned(),
    }
}

fn merge_enums<'a>(ms: &Vec<Module<'a>>) -> (r: Vec<EnumNode>)
    ensures
        enum_merged(enum_list(module_views(ms@), ms.len() as int), r@),
{
    let mut out: Vec<EnumNode> = Vec::new();
    let mut k: usize = 0;
    while k < ms.len()
        invariant
            k <= ms.len(),
            enum_merged(enum_list(module_views(ms@), k as int), out@),
        decreases ms.len() - k,
    {
        let own = &ms[k].program.enums;
        let ghost before = enum_list(module_views(ms@), k as int);
        let ghost list = enum_list(module_views(ms@), k + 1);
        let ghost start = out@.len();
        let mut i: usize = 0;
        while i < own.len()
            invariant
                k < ms.len(),
                i <= own@.len(),
                own@ == ms@[k as int].program.enums@,
                before == enum_list(module_views(ms@), k as int),
                list == enum_list(module_views(ms@), k + 1),
                start == before.len(),
                out@.len() == start + i,
                forall|j: int|
                    0 <= j < out@.len() ==> enum_tagged(list[j].0, list[j].1, #[trigger] out@[j]),
            decreases own@.len() - i,
        {
            out.push(tag_enum(&own[i], &ms[k].name));
            i = i + 1;
        }
        k = k + 1;
    }
    out
}

/// Whether `b` is a declaration of a module, tagged with the module's name (synced collections).
pub open spec fn state_tagged(a: SyncedStateNode, m: Seq<char>, b: SyncedStateNode) -> bool {
    &&& b.name@ == a.name@
    &&& b.collection_type@ == a.collection_type@
    &&& b.line == a.line
    &&& b.module@ == m
}

/// The declarations of the first `n` modules, each with its module's name (synced collections).
pub open spec fn state_list(ms: Seq<ModuleView>, n: int) -> Seq<(SyncedStateNode, Seq<char>)>
    decreases n,
{
    if n <= 0 || n > ms.len() {
        Seq::empty()
    } else {
        let own = ms[n - 1].program.states@;
        let name = ms[n - 1].name;
        state_list(ms, n - 1) + Seq::new(own.len(), |i: int| (own[i], name))
    }
}

/// Whether `bs` holds the declarations of all modules, tagged (synced collections).
pub open spec fn state_merged(list: Seq<(SyncedStateNode, Seq<char>)>, bs: Seq<SyncedStateNode>) -> bool {
    list.len() == bs.len() && forall|i: int|
        0 <= i < bs.len() ==> state_tagged(list[i].0, list[i].1, #[trigger] bs[i])
}

fn tag_state(a: &SyncedStateNode, m: &str) -> (r: SyncedStateNode)
    ensures
        state_tagged(*a, m@, r),
{
    SyncedStateNode {
        name: a.name.clone(),
        collection_type: a.collection_type.clone(),
        line: a.line,
        module: m.to_owned(),
    }
}

fn merge_states<'a>(ms: &Vec<Module<'a>>) -> (r: Vec<SyncedStateNode>)
    ensures
        state_merged(state_list(module_views(ms@), ms.len() as int), r@),
{
    let mut out: Vec<SyncedStateNode> = Vec::new();
    let mut k: usize = 0;
    while k < ms.len()
        invariant
            k <= ms.len(),
            state_merged(state_list(module_views(ms@), k as int), out@),
        decreases ms.len() - k,
    {
        let own = &ms[k].program.states;
        let ghost before = state_list(module_views(ms@), k as int);
        let ghost list = state_list(module_views(ms@), k + 1);
        let ghost start = out@.len();
        let mut i: usize = 0;
        while i < own.len()
            invariant
                k < ms.len(),
                i <= own@.len(),
                own@ == ms@[k as int].program.states@,
                before == state_list(module_views(ms@), k as int),
                list == state_list(module_views(ms@), k + 1),
                start == before.len(),
                out@.len() == start + i,
                forall|j: int|
                    0 <= j < out@.len() ==> state_tagged(list[j].0, list[j].1, #[trigger] out@[j]),
            decreases own@.len() - i,
        {
            out.push(tag_state(&own[i], &ms[k].name));
            i = i + 1;
        }
        k = k + 1;
    }
    out
}

/// Whether `b` is a declaration of a module, tagged with the module's name (endpoints).
pub open spec fn endpoint_tagged(a: EndpointNode, m: Seq<char>, b: EndpointNode) -> bool {
    &&& b.name@ == a.name@
    &&& b.base@ == a.base@
    &&& b.secrets@ == a.secrets@
    &&& b.line == a.line
    &&& b.module@ == m
}

/// The declarations of the first `n` modules, each with its module's name (endpoints).
pub open spec fn endpoint_list(ms: Seq<ModuleView>, n: int) -> Seq<(EndpointNode, Seq<char>)>
    decreases n,
{
    if n <= 0 || n > ms.len() {
        Seq::empty()
    } else {
        let own = ms[n - 1].program.endpoints@;
        let name = ms[n - 1].name;
        endpoint_list(ms, n - 1) + Seq::new(own.len(), |i: int| (own[i], name))
    }
}

/// Whether `bs` holds the declarations of all modules, tagged (endpoints).
pub open spec fn endpoint_merged(list: Seq<(EndpointNode, Seq<char>)>, bs: Seq<EndpointNode>) -> bool {
    list.len() == bs.len() && forall|i: int|
        0 <= i < bs.len() ==> endpoint_tagged(list[i].0, list[i].1, #[trigger] bs[i])
}

fn tag_endpoint(a: &EndpointNode, m: &str) -> (r: EndpointNode)
    ensures
        endpoint_tagged(*a, m@, r),
{
    EndpointNode {
        name: a.name.clone(),
        base: a.base.clone(),
        secrets: copy_pairs(&a.secrets),
        line: a.line,
        module: m.to_owned(),
    }
}

fn merge_endpoints<'a>(ms: &Vec<Module<'a>>) -> (r: Vec<EndpointNode>)
    ensures
        endpoint_merged(endpoint_list(module_views(ms@), ms.len() as int), r@),
{
    let mut out: Vec<EndpointNode> = Vec::new();
    let mut k: usize = 0;
    while k < ms.len()
        invariant
            k <= ms.len(),
            endpoint_merged(endpoint_list(module_views(ms@), k as int), out@),
        decreases ms.len() - k,
    {
        let own = &ms[k].program.endpoints;
        let ghost before = endpoint_list(module_views(ms@), k as int);
        let ghost list = endpoint_list(module_views(ms@), k + 1);
        let ghost start = out@.len();
        let mut i: usize = 0;
        while i < own.len()
            invariant
                k < ms.len(),
                i <= own@.len(),
                own@ == ms@[k as int].program.endpoints@,
                before == endpoint_list(module_views(ms@), k as int),
                list == endpoint_list(module_views(ms@), k + 1),
                start == before.len(),
                out@.len() == start + i,
                forall|j: int|
                    0 <= j < out@.len() ==> endpoint_tagged(list[j].0, list[j].1, #[trigger] out@[j]),
            decreases own@.len() - i,
        {
            out.push(tag_endpoint(&own[i], &ms[k].name));
            i = i + 1;
        }
        k = k + 1;
    }
    out
}

/// Whether `b` is a declaration of a module, tagged with the module's name (themes, which carry no tag).
pub open spec fn theme_tagged(a: ThemeNode, m: Seq<char>, b: ThemeNode) -> bool {
    &&& b.is_dark == a.is_dark
    &&& b.tokens@ == a.tokens@
}

/// The declarations of the first `n` modules, each with its module's name (themes, which carry no tag).
pub open spec fn theme_list(ms: Seq<ModuleView>, n: int) -> Seq<(ThemeNode, Seq<char>)>
    decreases n,
{
    if n <= 0 || n > ms.len() {
        Seq::empty()
    } else {
        let own = ms[n - 1].program.themes@;
        let name = ms[n - 1].name;
        theme_list(ms, n - 1) + Seq::new(own.len(), |i: int| (own[i], name))
    }
}

/// Whether `bs` holds the declarations of all modules, tagged (themes, which carry no tag).
pub open spec fn theme_merged(list: Seq<(ThemeNode, Seq<char>)>, bs: Seq<ThemeNode>) -> bool {
    list.len() == bs.len() && forall|i: int|
        0 <= i < bs.len() ==> theme_tagged(list[i].0, list[i].1, #[trigger] bs[i])
}

fn tag_theme(a: &ThemeNode, m: &str) -> (r: ThemeNode)
    ensures
        theme_tagged(*a, m@, r),
{
    let _ = m;
    ThemeNode { is_dark: a.is_dark, tokens: copy_tokens(&a.tokens) }
}

fn merge_themes<'a>(ms: &Vec<Module<'a>>) -> (r: Vec<ThemeNode>)
    ensures
        theme_merged(theme_list(module_views(ms@), ms.len() as int), r@),
{
    let mut out: Vec<ThemeNode> = Vec::new();
    let mut k: usize = 0;
    while k < ms.len()
        invariant
            k <= ms.len(),
            theme_merged(theme_list(module_views(ms@), k as int), out@),
        decreases ms.len() - k,
    {
        let own = &ms[k].program.themes;
        let ghost before = theme_list(module_views(ms@), k as int);
        let ghost list = theme_list(module_views(ms@), k + 1);
        let ghost start = out@.len();
        let mut i: usize = 0;
        while i < own.len()
            invariant
                k < ms.len(),
                i <= own@.len(),
                own@ == ms@[k as int].program.themes@,
                before == theme_list(module_views(ms@), k as int),
                list == theme_list(module_views(ms@), k + 1),
                start == before.len(),
                out@.len() == start + i,
                forall|j: int|
                    0 <= j < out@.len() ==> theme_tagged(list[j].0, list[j].1, #[trigger] out@[j]),
            decreases own@.len() - i,
        {
            out.push(tag_theme(&own[i], &ms[k].name));
            i = i + 1;
        }
        k = k + 1;
    }
    out
}

/// Whether `b` is a declaration of a module, tagged with the module's name (named styles, which carry no tag).
pub open spec fn style_tagged(a: StyleNode, m: Seq<char>, b: StyleNode) -> bool {
    &&& b == a
}

/// The declarations of the first `n` modules, each with its module's name (named styles, which carry no tag).
pub open spec fn style_list(ms: Seq<ModuleView>, n: int) -> Seq<(StyleNode, Seq<char>)>
    decreases n,
{
    if n <= 0 || n > ms.len() {
        Seq::empty()
    } else {
        let own = ms[n - 1].program.styles@;
        let name = ms[n - 1].name;
        style_list(ms, n - 1) + Seq::new(own.len(), |i: int| (own[i], name))
    }
}

/// Whether `bs` holds the declarations of all modules, tagged (named styles, which carry no tag).
pub open spec fn style_merged(list: Seq<(StyleNode, Seq<char>)>, bs: Seq<StyleNode>) -> bool {
    list.len() == bs.len() && forall|i: int|
        0 <= i < bs.len() ==> style_tagged(list[i].0, list[i].1, #[trigger] bs[i])
}

fn tag_style(a: &StyleNode, m: &str) -> (r: StyleNode)
    ensures
        style_tagged(*a, m@, r),
{
    let _ = m;
    StyleNode { name: a.name.clone(), css: a.css.clone(), line: a.line }
}

fn merge_styles<'a>(ms: &Vec<Module<'a>>) -> (r: Vec<StyleNode>)
    ensures
        style_merged(style_list(module_views(ms@), ms.len() as int), r@),
{
    let mut out: Vec<StyleNode> = Vec::new();
    let mut k: usize = 0;
    while k < ms.len()
        invariant
            k <= ms.len(),
            style_merged(style_list(module_views(ms@), k as int), out@),
        decreases ms.len() - k,
    {
        let own = &ms[k].program.styles;
        let ghost before = style_list(module_views(ms@), k as int);
        let ghost list = style_list(module_views(ms@), k + 1);
        let ghost start = out@.len();
        let mut i: usize = 0;
        while i < own.len()
            invariant
                k < ms.len(),
                i <= own@.len(),
                own@ == ms@[k as int].program.styles@,
                before == style_list(module_views(ms@), k as int),
                list == style_list(module_views(ms@), k + 1),
                start == before.len(),
                out@.len() == start + i,
                forall|j: int|
                    0 <= j < out@.len() ==> style_tagged(list[j].0, list[j].1, #[trigger] out@[j]),
            decreases own@.len() - i,
        {
            out.push(tag_style(&own[i], &ms[k].name));
            i = i + 1;
        }
        k = k + 1;
    }
    out
}


fn copy_properties(xs: &Vec<PropertyNode>) -> (r: Vec<PropertyNode>)
    ensures
        r@ == xs@,
{
    let mut out: Vec<PropertyNode> = Vec::new();
    let mut i: usize = 0;
    while i < xs.len()
        invariant
            i <= xs.len(),
            out@ == xs@.subrange(0, i as int),
        decreases xs.len() - i,
    {
        let x = &xs[i];
        out.push(
            PropertyNode {
                name: x.name.clone(),
                data_type: x.data_type.clone(),
                is_secret: x.is_secret,
                line: x.line,
            },
        );
        proof {
            assert(xs@.subrange(0, i + 1) =~= xs@.subrange(0, i as int).push(xs@[i as int]));
        }
        i = i + 1;
    }
    proof {
        assert(xs@.subrange(0, i as int) =~= xs@);
    }
    out
}

fn copy_pairs(xs: &Vec<(String, String)>) -> (r: Vec<(String, String)>)
    ensures
        r@ == xs@,
{
    let mut out: Vec<(String, String)> = Vec::new();
    let mut i: usize = 0;
    while i < xs.len()
        invariant
            i <= xs.len(),
            out@ == xs@.subrange(0, i as int),
        decreases xs.len() - i,
    {
        let x = &xs[i];
        out.push((x.0.clone(), x.1.clone()));
        proof {
            assert(xs@.subrange(0, i + 1) =~= xs@.subrange(0, i as int).push(xs@[i as int]));
        }
        i = i + 1;
    }
    proof {
        assert(xs@.subrange(0, i as int) =~= xs@);
    }
    out
}

fn copy_tokens(xs: &Vec<ThemeToken>) -> (r: Vec<ThemeToken>)
    ensures
        r@ == xs@,
{
    let mut out: Vec<ThemeToken> = Vec::new();
    let mut i: usize = 0;
    while i < xs.len()
        invariant
            i <= xs.len(),
            out@ == xs@.subrange(0, i as int),
        decreases xs.len() - i,
    {
        let x = &xs[i];
        out.push(
            ThemeToken {
                category: x.category.clone(),
                name: x.name.clone(),
                value: x.value.clone(),
                line: x.line,
            },
        );
        proof {
            assert(xs@.subrange(0, i + 1) =~= xs@.subrange(0, i as int).push(xs@[i as int]));
        }
        i = i + 1;
    }
    proof {
        assert(xs@.subrange(0, i as int) =~= xs@);
    }
    out
}

/// Whether `b` is a function of a module, tagged, with its calls resolved.
pub open spec fn function_links(
    a: FunctionNode,
    m: Seq<char>,
    file: Seq<char>,
    b: FunctionNode,
    d: DirectoryView,
) -> bool {
    let c = CallerView { module: m, file, line: a.line as nat };
    &&& b.env == a.env
    &&& b.is_auth == a.is_auth
    &&& b.is_pub == a.is_pub
    &&& b.name@ == a.name@
    &&& b.params@ == a.params@
    &&& opt_text(b.return_type) == opt_text(a.return_type)
    &&& b.line == a.line
    &&& b.module@ == m
    &&& stmts_resolve(a.body@, b.body@, c, d)
}

/// What a function reports on its calls.
pub open spec fn function_link_diags(
    a: FunctionNode,
    m: Seq<char>,
    file: Seq<char>,
    d: DirectoryView,
) -> Seq<DiagView> {
    qual_stmts(
        a.body@,
        a.body@.len() as int,
        CallerView { module: m, file, line: a.line as nat },
        d,
    )
}

fn link_function(a: &FunctionNode, m: &str, file: &str, d: &Directory) -> (r: (FunctionNode, Report))
    ensures
        function_links(*a, m@, file@, r.0, d@),
        r.1@ == function_link_diags(*a, m@, file@, d@),
{
    let c = Caller { module: m.to_owned(), file: file.to_owned(), line: a.line };
    let body = rewrite_stmts(&a.body, &c, d);
    (
        FunctionNode {
            env: a.env,
            is_auth: a.is_auth,
            is_pub: a.is_pub,
            name: a.name.clone(),
            params: copy_params(&a.params),
            return_type: copy_opt(&a.return_type),
            body: body.0,
            line: a.line,
            module: m.to_owned(),
        },
        body.1,
    )
}

/// The declarations of the first `n` modules, each with its module's name and file (functions).
pub open spec fn function_sources(ms: Seq<ModuleView>, n: int) -> Seq<(FunctionNode, Seq<char>, Seq<char>)>
    decreases n,
{
    if n <= 0 || n > ms.len() {
        Seq::empty()
    } else {
        let own = ms[n - 1].program.functions@;
        let m = ms[n - 1];
        function_sources(ms, n - 1) + Seq::new(own.len(), |i: int| (own[i], m.name, m.file))
    }
}

/// Whether `bs` holds the declarations of all modules, tagged, with their calls resolved (functions).
pub open spec fn functions_link(
    list: Seq<(FunctionNode, Seq<char>, Seq<char>)>,
    bs: Seq<FunctionNode>,
    d: DirectoryView,
) -> bool {
    list.len() == bs.len() && forall|i: int|
        0 <= i < bs.len() ==> function_links(list[i].0, list[i].1, list[i].2, #[trigger] bs[i], d)
}

/// What the first `n` declarations of a module report (functions).
pub open spec fn own_function_diags(
    own: Seq<FunctionNode>,
    n: int,
    m: Seq<char>,
    file: Seq<char>,
    d: DirectoryView,
) -> Seq<DiagView>
    decreases n,
{
    if n <= 0 || n > own.len() {
        clean()
    } else {
        own_function_diags(own, n - 1, m, file, d) + function_link_diags(own[n - 1], m, file, d)
    }
}

/// What the declarations of the first `n` modules report (functions).
pub open spec fn all_function_diags(ms: Seq<ModuleView>, n: int, d: DirectoryView) -> Seq<DiagView>
    decreases n,
{
    if n <= 0 || n > ms.len() {
        clean()
    } else {
        all_function_diags(ms, n - 1, d) + own_function_diags(
            ms[n - 1].program.functions@,
            ms[n - 1].program.functions@.len() as int,
            ms[n - 1].name,
            ms[n - 1].file,
            d,
        )
    }
}

fn link_functions<'a>(ms: &Vec<Module<'a>>, d: &Directory) -> (r: (Vec<FunctionNode>, Report))
    ensures
        functions_link(function_sources(module_views(ms@), ms@.len() as int), r.0@, d@),
        r.1@ == all_function_diags(module_views(ms@), ms@.len() as int, d@),
{
    let mut out: Vec<FunctionNode> = Vec::new();
    let mut errors = Report::new();
    let mut k: usize = 0;
    while k < ms.len()
        invariant
            k <= ms.len(),
            functions_link(function_sources(module_views(ms@), k as int), out@, d@),
            errors@ == all_function_diags(module_views(ms@), k as int, d@),
        decreases ms.len() - k,
    {
        let own = &ms[k].program.functions;
        let name = &ms[k].name;
        let file = &ms[k].file;
        let ghost before = function_sources(module_views(ms@), k as int);
        let ghost list = function_sources(module_views(ms@), k + 1);
        let ghost start = out@.len();
        let mut found = Report::new();
        let mut i: usize = 0;
        while i < own.len()
            invariant
                k < ms@.len(),
                i <= own@.len(),
                own@ == ms@[k as int].program.functions@,
                name@ == ms@[k as int].name@,
                file@ == ms@[k as int].file@,
                before == function_sources(module_views(ms@), k as int),
                list == function_sources(module_views(ms@), k + 1),
                start == before.len(),
                out@.len() == start + i,
                forall|j: int|
                    0 <= j < out@.len() ==> function_links(
                        list[j].0,
                        list[j].1,
                        list[j].2,
                        #[trigger] out@[j],
                        d@,
                    ),
                found@ == own_function_diags(own@, i as int, name@, file@, d@),
            decreases own@.len() - i,
        {
            let x = link_function(&own[i], name, file, d);
            out.push(x.0);
            found.append(x.1);
            i = i + 1;
        }
        errors.append(found);
        k = k + 1;
    }
    (out, errors)
}

/// Whether each of `bs` is its counterpart with the calls of its initializer resolved.
pub open spec fn cells_link(
    xs: Seq<StateNode>,
    bs: Seq<StateNode>,
    c: CallerView,
    d: DirectoryView,
) -> bool {
    xs.len() == bs.len() && forall|i: int|
        0 <= i < xs.len() ==> (#[trigger] xs[i]).name@ == bs[i].name@ && xs[i].ty@ == bs[i].ty@
            && xs[i].line == bs[i].line && resolves(xs[i].init, bs[i].init, c, d)
}

/// What the initializers of the first `n` cells report.
pub open spec fn cells_link_diags(xs: Seq<StateNode>, n: int, c: CallerView, d: DirectoryView) -> Seq<
    DiagView,
>
    decreases n,
{
    if n <= 0 || n > xs.len() {
        clean()
    } else {
        cells_link_diags(xs, n - 1, c, d) + qual_diags(xs[n - 1].init, c, d)
    }
}

fn link_cells(xs: &Vec<StateNode>, c: &Caller, d: &Directory) -> (r: (Vec<StateNode>, Report))
    ensures
        cells_link(xs@, r.0@, c@, d@),
        r.1@ == cells_link_diags(xs@, xs@.len() as int, c@, d@),
{
    let mut out: Vec<StateNode> = Vec::new();
    let mut errors = Report::new();
    let mut i: usize = 0;
    while i < xs.len()
        invariant
            i <= xs.len(),
            out@.len() == i,
            forall|j: int|
                0 <= j < i ==> (#[trigger] xs@[j]).name@ == out@[j].name@ && xs@[j].ty@
                    == out@[j].ty@ && xs@[j].line == out@[j].line && resolves(
                    xs@[j].init,
                    out@[j].init,
                    c@,
                    d@,
                ),
            errors@ == cells_link_diags(xs@, i as int, c@, d@),
        decreases xs.len() - i,
    {
        let st = &xs[i];
        let x = rewrite_expr(&st.init, c, d);
        out.push(StateNode { name: st.name.clone(), ty: st.ty.clone(), init: x.0, line: st.line });
        errors.append(x.1);
        i = i + 1;
    }
    (out, errors)
}

/// Whether `b` is a screen of a module, tagged, with its calls resolved.
pub open spec fn screen_links(
    a: ScreenNode,
    m: Seq<char>,
    file: Seq<char>,
    b: ScreenNode,
    d: DirectoryView,
) -> bool {
    let c = CallerView { module: m, file, line: a.line as nat };
    &&& b.name@ == a.name@
    &&& b.params@ == a.params@
    &&& b.is_component == a.is_component
    &&& b.is_auth == a.is_auth
    &&& opt_text(b.route) == opt_text(a.route)
    &&& b.line == a.line
    &&& b.module@ == m
    &&& cells_link(a.states@, b.states@, c, d)
    &&& stmts_resolve(a.load@, b.load@, c, d)
    &&& views_resolve(a.body@, b.body@, c, d)
}

/// What a screen reports on its calls: its cells, its loader, its view.
pub open spec fn screen_link_diags(
    a: ScreenNode,
    m: Seq<char>,
    file: Seq<char>,
    d: DirectoryView,
) -> Seq<DiagView> {
    let c = CallerView { module: m, file, line: a.line as nat };
    cells_link_diags(a.states@, a.states@.len() as int, c, d) + qual_stmts(
        a.load@,
        a.load@.len() as int,
        c,
        d,
    ) + qual_views(a.body@, a.body@.len() as int, c, d)
}

fn link_screen(a: &ScreenNode, m: &str, file: &str, d: &Directory) -> (r: (ScreenNode, Report))
    ensures
        screen_links(*a, m@, file@, r.0, d@),
        r.1@ == screen_link_diags(*a, m@, file@, d@),
{
    let c = Caller { module: m.to_owned(), file: file.to_owned(), line: a.line };
    let states = link_cells(&a.states, &c, d);
    let load = rewrite_stmts(&a.load, &c, d);
    let body = rewrite_views(&a.body, &c, d);
    let mut errors = states.1;
    errors.append(load.1);
    errors.append(body.1);
    (
        ScreenNode {
            name: a.name.clone(),
            params: copy_params(&a.params),
            states: states.0,
            load: load.0,
            body: body.0,
            is_component: a.is_component,
            is_auth: a.is_auth,
            route: copy_opt(&a.route),
            line: a.line,
            module: m.to_owned(),
        },
        errors,
    )
}

/// The declarations of the first `n` modules, each with its module's name and file (screens).
pub open spec fn screen_sources(ms: Seq<ModuleView>, n: int) -> Seq<(ScreenNode, Seq<char>, Seq<char>)>
    decreases n,
{
    if n <= 0 || n > ms.len() {
        Seq::empty()
    } else {
        let own = ms[n - 1].program.screens@;
        let m = ms[n - 1];
        screen_sources(ms, n - 1) + Seq::new(own.len(), |i: int| (own[i], m.name, m.file))
    }
}

/// Whether `bs` holds the declarations of all modules, tagged, with their calls resolved (screens).
pub open spec fn screens_link(
    list: Seq<(ScreenNode, Seq<char>, Seq<char>)>,
    bs: Seq<ScreenNode>,
    d: DirectoryView,
) -> bool {
    list.len() == bs.len() && forall|i: int|
        0 <= i < bs.len() ==> screen_links(list[i].0, list[i].1, list[i].2, #[trigger] bs[i], d)
}

/// What the first `n` declarations of a module report (screens).
pub open spec fn own_screen_diags(
    own: Seq<ScreenNode>,
    n: int,
    m: Seq<char>,
    file: Seq<char>,
    d: DirectoryView,
) -> Seq<DiagView>
    decreases n,
{
    if n <= 0 || n > own.len() {
        clean()
    } else {
        own_screen_diags(own, n - 1, m, file, d) + screen_link_diags(own[n - 1], m, file, d)
    }
}

/// What the declarations of the first `n` modules report (screens).
pub open spec fn all_screen_diags(ms: Seq<ModuleView>, n: int, d: DirectoryView) -> Seq<DiagView>
    decreases n,
{
    if n <= 0 || n > ms.len() {
        clean()
    } else {
        all_screen_diags(ms, n - 1, d) + own_screen_diags(
            ms[n - 1].program.screens@,
            ms[n - 1].program.screens@.len() as int,
            ms[n - 1].name,
            ms[n - 1].file,
            d,
        )
    }
}

fn link_screens<'a>(ms: &Vec<Module<'a>>, d: &Directory) -> (r: (Vec<ScreenNode>, Report))
    ensures
        screens_link(screen_sources(module_views(ms@), ms@.len() as int), r.0@, d@),
        r.1@ == all_screen_diags(module_views(ms@), ms@.len() as int, d@),
{
    let mut out: Vec<ScreenNode> = Vec::new();
    let mut errors = Report::new();
    let mut k: usize = 0;
    while k < ms.len()
        invariant
            k <= ms.len(),
            screens_link(screen_sources(module_views(ms@), k as int), out@, d@),
            errors@ == all_screen_diags(module_views(ms@), k as int, d@),
        decreases ms.len() - k,
    {
        let own = &ms[k].program.screens;
        let name = &ms[k].name;
        let file = &ms[k].file;
        let ghost before = screen_sources(module_views(ms@), k as int);
        let ghost list = screen_sources(module_views(ms@), k + 1);
        let ghost start = out@.len();
        let mut found = Report::new();
        let mut i: usize = 0;
        while i < own.len()
            invariant
                k < ms@.len(),
                i <= own@.len(),
                own@ == ms@[k as int].program.screens@,
                name@ == ms@[k as int].name@,
                file@ == ms@[k as int].file@,
                before == screen_sources(module_views(ms@), k as int),
                list == screen_sources(module_views(ms@), k + 1),
                start == before.len(),
                out@.len() == start + i,
                forall|j: int|
                    0 <= j < out@.len() ==> screen_links(
                        list[j].0,
                        list[j].1,
                        list[j].2,
                        #[trigger] out@[j],
                        d@,
                    ),
                found@ == own_screen_diags(own@, i as int, name@, file@, d@),
            decreases own@.len() - i,
        {
            let x = link_screen(&own[i], name, file, d);
            out.push(x.0);
            found.append(x.1);
            i = i + 1;
        }
        errors.append(found);
        k = k + 1;
    }
    (out, errors)
}

/// Whether each of `bs` is its counterpart with the calls of its body resolved.
pub open spec fn routes_link(
    xs: Seq<ApiRoute>,
    bs: Seq<ApiRoute>,
    m: Seq<char>,
    file: Seq<char>,
    d: DirectoryView,
) -> bool {
    xs.len() == bs.len() && forall|i: int|
        0 <= i < xs.len() ==> (#[trigger] xs[i]).method@ == bs[i].method@ && xs[i].path@
            == bs[i].path@ && xs[i].body == bs[i].body && opt_text(xs[i].return_type) == opt_text(
            bs[i].return_type,
        ) && xs[i].line == bs[i].line && stmts_resolve(
            xs[i].body_stmts@,
            bs[i].body_stmts@,
            CallerView { module: m, file, line: xs[i].line as nat },
            d,
        )
}

/// What the first `n` routes report on their calls.
pub open spec fn routes_link_diags(
    xs: Seq<ApiRoute>,
    n: int,
    m: Seq<char>,
    file: Seq<char>,
    d: DirectoryView,
) -> Seq<DiagView>
    decreases n,
{
    if n <= 0 || n > xs.len() {
        clean()
    } else {
        routes_link_diags(xs, n - 1, m, file, d) + qual_stmts(
            xs[n - 1].body_stmts@,
            xs[n - 1].body_stmts@.len() as int,
            CallerView { module: m, file, line: xs[n - 1].line as nat },
            d,
        )
    }
}

fn link_routes(xs: &Vec<ApiRoute>, m: &str, file: &str, d: &Directory) -> (r: (
    Vec<ApiRoute>,
    Report,
))
    ensures
        routes_link(xs@, r.0@, m@, file@, d@),
        r.1@ == routes_link_diags(xs@, xs@.len() as int, m@, file@, d@),
{
    let mut out: Vec<ApiRoute> = Vec::new();
    let mut errors = Report::new();
    let mut i: usize = 0;
    while i < xs.len()
        invariant
            i <= xs.len(),
            out@.len() == i,
            forall|j: int|
                0 <= j < i ==> (#[trigger] xs@[j]).method@ == out@[j].method@ && xs@[j].path@
                    == out@[j].path@ && xs@[j].body == out@[j].body && opt_text(xs@[j].return_type)
                    == opt_text(out@[j].return_type) && xs@[j].line == out@[j].line
                    && stmts_resolve(
                    xs@[j].body_stmts@,
                    out@[j].body_stmts@,
                    CallerView { module: m@, file: file@, line: xs@[j].line as nat },
                    d@,
                ),
            errors@ == routes_link_diags(xs@, i as int, m@, file@, d@),
        decreases xs.len() - i,
    {
        let a = &xs[i];
        let c = Caller { module: m.to_owned(), file: file.to_owned(), line: a.line };
        let x = rewrite_stmts(&a.body_stmts, &c, d);
        let body = match &a.body {
            Some(b) => Some(copy_param(b)),
            None => None,
        };
        out.push(
            ApiRoute {
                method: a.method.clone(),
                path: a.path.clone(),
                body,
                return_type: copy_opt(&a.return_type),
                body_stmts: x.0,
                line: a.line,
            },
        );
        errors.append(x.1);
        i = i + 1;
    }
    (out, errors)
}

/// Whether `b` is an inbound API of a module, tagged, with its calls resolved.
pub open spec fn api_links(
    a: ApiNode,
    m: Seq<char>,
    file: Seq<char>,
    b: ApiNode,
    d: DirectoryView,
) -> bool {
    &&& b.base@ == a.base@
    &&& b.line == a.line
    &&& b.module@ == m
    &&& routes_link(a.routes@, b.routes@, m, file, d)
}

/// What an inbound API reports on its calls.
pub open spec fn api_link_diags(a: ApiNode, m: Seq<char>, file: Seq<char>, d: DirectoryView) -> Seq<
    DiagView,
> {
    routes_link_diags(a.routes@, a.routes@.len() as int, m, file, d)
}

fn link_api(a: &ApiNode, m: &str, file: &str, d: &Directory) -> (r: (ApiNode, Report))
    ensures
        api_links(*a, m@, file@, r.0, d@),
        r.1@ == api_link_diags(*a, m@, file@, d@),
{
    let x = link_routes(&a.routes, m, file, d);
    (
        ApiNode { base: a.base.clone(), routes: x.0, line: a.line, module: m.to_owned() },
        x.1,
    )
}

/// The declarations of the first `n` modules, each with its module's name and file (apis).
pub open spec fn api_sources(ms: Seq<ModuleView>, n: int) -> Seq<(ApiNode, Seq<char>, Seq<char>)>
    decreases n,
{
    if n <= 0 || n > ms.len() {
        Seq::empty()
    } else {
        let own = ms[n - 1].program.apis@;
        let m = ms[n - 1];
        api_sources(ms, n - 1) + Seq::new(own.len(), |i: int| (own[i], m.name, m.file))
    }
}

/// Whether `bs` holds the declarations of all modules, tagged, with their calls resolved (apis).
pub open spec fn apis_link(
    list: Seq<(ApiNode, Seq<char>, Seq<char>)>,
    bs: Seq<ApiNode>,
    d: DirectoryView,
) -> bool {
    list.len() == bs.len() && forall|i: int|
        0 <= i < bs.len() ==> api_links(list[i].0, list[i].1, list[i].2, #[trigger] bs[i], d)
}

/// What the first `n` declarations of a module report (apis).
pub open spec fn own_api_diags(
    own: Seq<ApiNode>,
    n: int,
    m: Seq<char>,
    file: Seq<char>,
    d: DirectoryView,
) -> Seq<DiagView>
    decreases n,
{
    if n <= 0 || n > own.len() {
        clean()
    } else {
        own_api_diags(own, n - 1, m, file, d) + api_link_diags(own[n - 1], m, file, d)
    }
}

/// What the declarations of the first `n` modules report (apis).
pub open spec fn all_api_diags(ms: Seq<ModuleView>, n: int, d: DirectoryView) -> Seq<DiagView>
    decreases n,
{
    if n <= 0 || n > ms.len() {
        clean()
    } else {
        all_api_diags(ms, n - 1, d) + own_api_diags(
            ms[n - 1].program.apis@,
            ms[n - 1].program.apis@.len() as int,
            ms[n - 1].name,
            ms[n - 1].file,
            d,
        )
    }
}

fn link_apis<'a>(ms: &Vec<Module<'a>>, d: &Directory) -> (r: (Vec<ApiNode>, Report))
    ensures
        apis_link(api_sources(module_views(ms@), ms@.len() as int), r.0@, d@),
        r.1@ == all_api_diags(module_views(ms@), ms@.len() as int, d@),
{
    let mut out: Vec<ApiNode> = Vec::new();
    let mut errors = Report::new();
    let mut k: usize = 0;
    while k < ms.len()
        invariant
            k <= ms.len(),
            apis_link(api_sources(module_views(ms@), k as int), out@, d@),
            errors@ == all_api_diags(module_views(ms@), k as int, d@),
        decreases ms.len() - k,
    {
        let own = &ms[k].program.apis;
        let name = &ms[k].name;
        let file = &ms[k].file;
        let ghost before = api_sources(module_views(ms@), k as int);
        let ghost list = api_sources(module_views(ms@), k + 1);
        let ghost start = out@.len();
        let mut found = Report::new();
        let mut i: usize = 0;
        while i < own.len()
            invariant
                k < ms@.len(),
                i <= own@.len(),
                own@ == ms@[k as int].program.apis@,
                name@ == ms@[k as int].name@,
                file@ == ms@[k as int].file@,
                before == api_sources(module_views(ms@), k as int),
                list == api_sources(module_views(ms@), k + 1),
                start == before.len(),
                out@.len() == start + i,
                forall|j: int|
                    0 <= j < out@.len() ==> api_links(
                        list[j].0,
                        list[j].1,
                        list[j].2,
                        #[trigger] out@[j],
                        d@,
                    ),
                found@ == own_api_diags(own@, i as int, name@, file@, d@),
            decreases own@.len() - i,
        {
            let x = link_api(&own[i], name, file, d);
            out.push(x.0);
            found.append(x.1);
            i = i + 1;
        }
        errors.append(found);
        k = k + 1;
    }
    (out, errors)
}

/// Whether a finding comes before another: by file, then by line.
pub open spec fn place_lt(a: DiagView, b: DiagView) -> bool {
    text_lt(a.file, b.file) || (a.file == b.file && a.line < b.line)
}

fn is_earlier(a: &Diagnostic, b: &Diagnostic) -> (r: bool)
    ensures
        r == place_lt(a@, b@),
{
    is_before(&a.file, &b.file) || (same(&a.file, &b.file) && a.line < b.line)
}

/// A finding put into a list in order of place, behind every one that it does not come before.
pub open spec fn insert_by_place(list: Seq<DiagView>, d: DiagView) -> Seq<DiagView>
    decreases list.len(),
{
    if list.len() == 0 || !place_lt(d, list.last()) {
        list.push(d)
    } else {
        insert_by_place(list.drop_last(), d).push(list.last())
    }
}

/// The first `n` findings in order of place; those on one line keep their order.
pub open spec fn by_place(list: Seq<DiagView>, n: int) -> Seq<DiagView>
    decreases n,
{
    if n <= 0 || n > list.len() {
        Seq::empty()
    } else {
        insert_by_place(by_place(list, n - 1), list[n - 1])
    }
}

proof fn lemma_insert_by_place(list: Seq<DiagView>, d: DiagView)
    ensures
        insert_by_place(list, d).to_multiset() =~= list.to_multiset().insert(d),
    decreases list.len(),
{
    broadcast use vstd::seq_lib::group_to_multiset_ensures;

    if list.len() > 0 && place_lt(d, list.last()) {
        lemma_insert_by_place(list.drop_last(), d);
        assert(list =~= list.drop_last().push(list.last()));
    }
}

/// Ordering findings by place loses none and adds none.
pub proof fn law_by_place(list: Seq<DiagView>, n: int)
    requires
        0 <= n <= list.len(),
    ensures
        by_place(list, n).to_multiset() =~= list.take(n).to_multiset(),
    decreases n,
{
    broadcast use vstd::seq_lib::group_to_multiset_ensures;

    if n > 0 {
        law_by_place(list, n - 1);
        lemma_insert_by_place(by_place(list, n - 1), list[n - 1]);
        assert(list.take(n) =~= list.take(n - 1).push(list[n - 1]));
    } else {
        assert(list.take(0) =~= Seq::<DiagView>::empty());
    }
}

proof fn lemma_insert_at_place(list: Seq<DiagView>, d: DiagView, k: int)
    requires
        0 <= k <= list.len(),
        forall|j: int| k <= j < list.len() ==> place_lt(d, #[trigger] list[j]),
        k > 0 ==> !place_lt(d, list[k - 1]),
    ensures
        insert_by_place(list, d) == list.insert(k, d),
    decreases list.len(),
{
    if k == list.len() {
        assert(list.insert(k, d) =~= list.push(d));
    } else {
        let t = list.drop_last();
        assert forall|j: int| k <= j < t.len() implies place_lt(d, #[trigger] t[j]) by {
            assert(t[j] == list[j]);
        }
        assert(k > 0 ==> t[k - 1] == list[k - 1]);
        lemma_insert_at_place(t, d, k);
        assert(list.insert(k, d) =~= t.insert(k, d).push(list.last()));
    }
}

fn sort_by_place(report: Report) -> (r: Vec<Diagnostic>)
    ensures
        diag_views(r@) == by_place(report@, report@.len() as int),
{
    let mut rest: Vec<Diagnostic> = report.items;
    let n: usize = rest.len();
    let ghost all = diag_views(rest@);
    let mut out: Vec<Diagnostic> = Vec::new();
    let mut i: usize = 0;
    proof {
        assert(diag_views(out@) =~= Seq::empty());
        assert(all =~= diag_views(rest@));
    }
    while i < n
        invariant
            i <= n,
            n == all.len(),
            rest@.len() == n - i,
            diag_views(rest@) =~= all.subrange(i as int, n as int),
            diag_views(out@) == by_place(all, i as int),
        decreases n - i,
    {
        let ghost before_rest = rest@;
        let d = rest.remove(0);
        proof {
            assert(diag_views(before_rest)[0] == d@);
            assert(d@ == all[i as int]);
            assert(diag_views(rest@) =~= all.subrange(i + 1, n as int)) by {
                assert forall|j: int| 0 <= j < rest@.len() implies diag_views(rest@)[j] == all[i + 1
                    + j] by {
                    assert(rest@[j] == before_rest[j + 1]);
                    assert(diag_views(before_rest)[j + 1] == all[i + 1 + j]);
                }
            }
        }
        let mut k: usize = out.len();
        while k > 0 && is_earlier(&d, &out[k - 1])
            invariant
                k <= out@.len(),
                forall|j: int| k <= j < out@.len() ==> place_lt(d@, #[trigger] diag_views(out@)[j]),
            decreases k,
        {
            proof {
                assert(diag_views(out@)[k - 1] == out@[k - 1]@);
            }
            k = k - 1;
        }
        let ghost before = diag_views(out@);
        let ghost old_out = out@;
        proof {
            if k > 0 {
                assert(before[k - 1] == old_out[k - 1]@);
            }
            lemma_insert_at_place(before, d@, k as int);
        }
        out.insert(k, d);
        proof {
            assert(diag_views(out@) =~= before.insert(k as int, d@));
        }
        i = i + 1;
    }
    out
}

/// The findings on a set of modules, rule by rule: what they require, what is granted to them, what
/// they reach for, and their calls. `ms` is in load order.
pub open spec fn link_diags(ms: Seq<ModuleView>) -> Seq<DiagView> {
    let es = entry_first(ms);
    let d = directory_of(es);
    requires_diags(ms, ms.len() as int) + all_grants_diags(ms, ms.len() as int) + authority_diags(
        es,
        es.len() as int,
        ms.last().name,
        endpoint_names(es, es.len() as int),
    ) + all_function_diags(es, es.len() as int, d) + all_screen_diags(es, es.len() as int, d)
        + all_api_diags(es, es.len() as int, d)
}

/// Whether `b` is the merged program of a set of modules: the declarations of the entry, then of the
/// others in load order, each tagged with its module's name, with their calls resolved.
pub open spec fn merges(ms: Seq<ModuleView>, b: XeresProgram) -> bool {
    let es = entry_first(ms);
    let d = directory_of(es);
    let n = es.len() as int;
    &&& model_merged(model_list(es, n), b.models@)
    &&& enum_merged(enum_list(es, n), b.enums@)
    &&& state_merged(state_list(es, n), b.states@)
    &&& endpoint_merged(endpoint_list(es, n), b.endpoints@)
    &&& theme_merged(theme_list(es, n), b.themes@)
    &&& style_merged(style_list(es, n), b.styles@)
    &&& functions_link(function_sources(es, n), b.functions@, d)
    &&& screens_link(screen_sources(es, n), b.screens@, d)
    &&& apis_link(api_sources(es, n), b.apis@, d)
    &&& b.imports@.len() == 0
    &&& b.requires_caps@.len() == 0
}

/// Checks a set of modules against each other, and merges them.
pub fn link<'a>(ms: Vec<Module<'a>>) -> (r: Result<XeresProgram, Vec<Diagnostic>>)
    requires
        ms@.len() > 0,
    ensures
        match r {
            Ok(b) => link_diags(module_views(ms@)).len() == 0 && merges(module_views(ms@), b),
            Err(es) => link_diags(module_views(ms@)).len() > 0 && diag_views(es@) == by_place(
                link_diags(module_views(ms@)),
                link_diags(module_views(ms@)).len() as int,
            ),
        },
{
    let ghost all = module_views(ms@);
    let n: usize = ms.len();
    let entry = ms[n - 1].name.clone();
    let mut errors = check_requires(&ms);
    errors.append(check_all_grants(&ms));
    let es = put_entry_first(ms);
    proof {
        assert(module_views(es@).len() == es@.len());
        assert(all.last().name == entry@);
    }
    let eps = collect_endpoints(&es);
    errors.append(check_authority(&es, &entry, &eps));
    let d = directory(&es);
    let functions = link_functions(&es, &d);
    errors.append(functions.1);
    let screens = link_screens(&es, &d);
    errors.append(screens.1);
    let apis = link_apis(&es, &d);
    errors.append(apis.1);
    if errors.len() > 0 {
        return Err(sort_by_place(errors));
    }
    Ok(
        XeresProgram {
            models: merge_models(&es),
            enums: merge_enums(&es),
            functions: functions.0,
            states: merge_states(&es),
            screens: screens.0,
            endpoints: merge_endpoints(&es),
            apis: apis.0,
            imports: Vec::new(),
            requires_caps: Vec::new(),
            themes: merge_themes(&es),
            styles: merge_styles(&es),
        },
    )
}

/// What a load ends with: a program, findings, or the file that has to be read next, with the files
/// that were given.
pub enum Loading {
    Program(XeresProgram),
    Failed(Vec<Diagnostic>),
    Needs { key: String, display: String, files: Vec<SourceFile> },
}

/// The state of a load before the first file.
pub open spec fn no_load() -> LoadView {
    LoadView { order: Seq::empty(), errors: clean(), need: None }
}

/// The load of an entry file and everything that it imports.
pub open spec fn loaded_from(files: Seq<SourceFile>, key: Seq<char>, entry: Seq<char>) -> LoadView {
    load_file(files, key, entry, Seq::empty(), no_load())
}

/// Resolves an entry file and everything that it imports into one program. A program without imports
/// is given back as it is. Each time a file is needed that is not among `files`, its key is asked
/// for; the caller reads it and calls again.
pub fn load_program(key: &str, entry: &str, files: Vec<SourceFile>) -> (r: Loading)
    ensures
        ({
            let st = loaded_from(files@, key@, entry@);
            let ms = modules_at(files@, st.order);
            let unique = unique_diags(ms, ms.len() as int);
            let all = link_diags(ms);
            match r {
                Loading::Needs { key: k, display, files: fs } => {
                    &&& st.need == Some((k@, display@))
                    &&& fs@ == files@
                },
                Loading::Failed(es) => {
                    &&& st.need is None
                    &&& if st.errors.len() > 0 {
                        diag_views(es@) == st.errors
                    } else if unique.len() > 0 {
                        ms.len() > 1 && diag_views(es@) == unique
                    } else {
                        ms.len() > 1 && all.len() > 0 && diag_views(es@) == by_place(
                            all,
                            all.len() as int,
                        )
                    }
                },
                Loading::Program(b) => {
                    &&& st.need is None
                    &&& st.errors.len() == 0
                    &&& if ms.len() == 1 {
                        b == ms[0].program
                    } else {
                        unique.len() == 0 && all.len() == 0 && merges(ms, b)
                    }
                },
            }
        }),
{
    let mut st = LoadState { order: Vec::new(), errors: Report::new(), need: None };
    let stack = Parts::new();
    proof {
        assert(visit_views(st.order@) =~= Seq::empty());
        assert(st@ == no_load());
    }
    load_recursive(&files, key, entry, &stack, &mut st);
    let LoadState { order, errors, need } = st;
    if let Some(n) = need {
        return Loading::Needs { key: n.0, display: n.1, files };
    }
    if errors.len() > 0 {
        return Loading::Failed(errors.items);
    }
    proof {
        lemma_something_loads(files@, key@, entry@);
    }
    if order.len() == 1 {
        let i: usize = order[0].file;
        proof {
            assert(visit_views(order@)[0].file == i);
        }
        let mut rest = files;
        let only = rest.remove(i);
        if let Content::Parsed { program, .. } = only.content {
            return Loading::Program(program);
        }
        return Loading::Failed(Vec::new());
    }
    let ms = collect_modules(&files, &order);
    proof {
        assert(module_views(ms@).len() == ms@.len());
    }
    let unique = check_unique(&ms);
    if unique.len() > 0 {
        return Loading::Failed(unique.items);
    }
    match link(ms) {
        Ok(b) => Loading::Program(b),
        Err(es) => Loading::Failed(es),
    }
}

proof fn lemma_file_index(files: Seq<SourceFile>, key: Seq<char>, i: int)
    requires
        0 <= i,
    ensures
        match file_index(files, key, i) {
            Some(k) => i <= k < files.len() && files[k].key@ == key,
            None => true,
        },
    decreases files.len() - i,
{
    if i < files.len() && files[i].key@ != key {
        lemma_file_index(files, key, i + 1);
    }
}

/// The entry file is loaded last: everything that it imports, directly or not, comes before it.
pub proof fn law_entry_loads_last(files: Seq<SourceFile>, key: Seq<char>, entry: Seq<char>)
    ensures
        ({
            let st = loaded_from(files, key, entry);
            st.need is None && st.errors.len() == 0 ==> st.order.len() > 0
                && st.order.last().display == entry && files[st.order.last().file].key@ == key
        }),
{
    lemma_file_index(files, key, 0);
}

proof fn lemma_undeclared_is_reported(
    ms: Seq<ModuleView>,
    n: int,
    entry: Seq<char>,
    eps: Seq<Seq<char>>,
    i: int,
    c: Cap,
)
    requires
        0 <= i < n <= ms.len(),
        ms[i].name != entry,
        undeclared_diags(ms[i], c, eps).len() > 0,
    ensures
        authority_diags(ms, n, entry, eps).len() > 0,
    decreases n,
{
    if i < n - 1 {
        lemma_undeclared_is_reported(ms, n - 1, entry, eps, i, c);
    }
}

/// The authority of a dependency is explicit: a set of modules is not merged where one of them, the
/// entry aside, reaches for a capability that it does not declare.
pub proof fn law_undeclared_capability_is_refused(ms: Seq<ModuleView>, i: int, c: Cap)
    requires
        0 <= i < ms.len(),
        ms[i].name != ms.last().name,
        module_needs(
            ms[i].program,
            c,
            endpoint_names(entry_first(ms), entry_first(ms).len() as int),
        ),
        !text_among(
            ms[i].program.requires_caps@,
            ms[i].program.requires_caps@.len() as int,
            cap_text(c),
        ),
    ensures
        link_diags(ms).len() > 0,
{
    let es = entry_first(ms);
    let eps = endpoint_names(es, es.len() as int);
    assert(es[i + 1] == ms[i]);
    lemma_undeclared_is_reported(es, es.len() as int, ms.last().name, eps, i + 1, c);
}

proof fn lemma_ungranted(
    list: Seq<String>,
    n: int,
    grants: Seq<String>,
    child: Seq<char>,
    file: Seq<char>,
    line: nat,
    k: int,
)
    requires
        0 <= k < n <= list.len(),
        !text_among(grants, grants.len() as int, list[k]@),
    ensures
        ungranted_diags(list, n, grants, child, file, line).len() > 0,
    decreases n,
{
    if k < n - 1 {
        lemma_ungranted(list, n - 1, grants, child, file, line, k);
    } else if text_among(list, n - 1, list[k]@) {
        let j = choose|j: int| 0 <= j < n - 1 && j < list.len() && (#[trigger] list[j])@ == list[k]@;
        lemma_ungranted(list, n - 1, grants, child, file, line, j);
    }
}

proof fn lemma_grants(m: ModuleView, n: int, ms: Seq<ModuleView>, e: int, k: int)
    requires
        0 <= e < n <= edge_count(m),
        0 <= k < required_caps(ms, module_text(m.children[e].key@)).len(),
        !text_among(
            m.program.imports@[e].grants@,
            m.program.imports@[e].grants@.len() as int,
            required_caps(ms, module_text(m.children[e].key@))[k]@,
        ),
    ensures
        grants_diags(m, n, ms).len() > 0,
    decreases n,
{
    if e < n - 1 {
        lemma_grants(m, n - 1, ms, e, k);
    } else {
        let im = m.program.imports@[e];
        let child = module_text(m.children[e].key@);
        let required = required_caps(ms, child);
        lemma_ungranted(
            required,
            required.len() as int,
            im.grants@,
            child,
            m.file,
            im.line as nat,
            k,
        );
    }
}

proof fn lemma_all_grants(ms: Seq<ModuleView>, n: int, i: int)
    requires
        0 <= i < n <= ms.len(),
        grants_diags(ms[i], edge_count(ms[i]), ms).len() > 0,
    ensures
        all_grants_diags(ms, n).len() > 0,
    decreases n,
{
    if i < n - 1 {
        lemma_all_grants(ms, n - 1, i);
    }
}

/// No capability without a grant: a set of modules is not merged where an import of module `i` does
/// not grant a capability that the imported module requires.
pub proof fn law_ungranted_capability_is_refused(ms: Seq<ModuleView>, i: int, e: int, k: int)
    requires
        0 <= i < ms.len(),
        0 <= e < edge_count(ms[i]),
        0 <= k < required_caps(ms, module_text(ms[i].children[e].key@)).len(),
        !text_among(
            ms[i].program.imports@[e].grants@,
            ms[i].program.imports@[e].grants@.len() as int,
            required_caps(ms, module_text(ms[i].children[e].key@))[k]@,
        ),
    ensures
        link_diags(ms).len() > 0,
{
    lemma_grants(ms[i], edge_count(ms[i]), ms, e, k);
    lemma_all_grants(ms, ms.len() as int, i);
}

proof fn lemma_something_loads(files: Seq<SourceFile>, key: Seq<char>, entry: Seq<char>)
    ensures
        ({
            let st = loaded_from(files, key, entry);
            st.need is Some || st.errors.len() > 0 || st.order.len() > 0
        }),
{
}

proof fn lemma_earlier(ms: Seq<ModuleView>, n: int, i: int)
    requires
        0 <= i < n <= ms.len(),
    ensures
        earlier_file(ms, n, ms[i].name) is Some,
    decreases n,
{
    if i < n - 1 {
        lemma_earlier(ms, n - 1, i);
    }
}

proof fn lemma_unique_part(ms: Seq<ModuleView>, n: int, j: int)
    requires
        0 <= j < n <= ms.len(),
        earlier_file(ms, j, ms[j].name) is Some,
    ensures
        unique_diags(ms, n).len() > 0,
    decreases n,
{
    if j < n - 1 {
        lemma_unique_part(ms, n - 1, j);
    }
}

/// Two files cannot share a module name.
pub proof fn law_shared_module_name_is_refused(ms: Seq<ModuleView>, i: int, j: int)
    requires
        0 <= i < j < ms.len(),
        ms[i].name == ms[j].name,
    ensures
        unique_diags(ms, ms.len() as int).len() > 0,
{
    lemma_earlier(ms, j, i);
    lemma_unique_part(ms, ms.len() as int, j);
}

/// The imports of a file.
pub open spec fn imports_of(f: SourceFile) -> Seq<Child> {
    match f.content {
        Content::Parsed { children, .. } => children@,
        _ => Seq::empty(),
    }
}

/// Whether no file is loaded twice.
pub open spec fn loads_once(files: Seq<SourceFile>, order: Seq<VisitView>) -> bool {
    forall|i: int, j: int|
        0 <= i < j < order.len() ==> files[(#[trigger] order[i]).file].key@ != files[(
        #[trigger] order[j]).file].key@
}

/// Whether every file is loaded behind the files that it imports.
pub open spec fn imports_first(files: Seq<SourceFile>, order: Seq<VisitView>) -> bool {
    forall|i: int, c: int|
        #![trigger imports_of(files[order[i].file])[c]]
        0 <= i < order.len() && 0 <= c < imports_of(files[order[i].file]).len() ==> is_loaded(
            files,
            order.take(i),
            imports_of(files[order[i].file])[c].key@,
        )
}

/// Whether the keys of the files that are being loaded are distinct keys of files.
spec fn stack_ok(files: Seq<SourceFile>, stack: Seq<Seq<char>>) -> bool {
    &&& stack.no_duplicates()
    &&& forall|i: int| 0 <= i < stack.len() ==> file_index(files, #[trigger] stack[i], 0) is Some
}

spec fn places(files: Seq<SourceFile>, stack: Seq<Seq<char>>) -> Seq<int> {
    Seq::new(stack.len(), |i: int| file_index(files, stack[i], 0)->0)
}

proof fn lemma_stack_fits(files: Seq<SourceFile>, stack: Seq<Seq<char>>)
    requires
        stack_ok(files, stack),
    ensures
        stack.len() <= files.len(),
{
    let ps = places(files, stack);
    assert forall|i: int, j: int| 0 <= i < ps.len() && 0 <= j < ps.len() && i != j implies ps[i]
        != ps[j] by {
        lemma_file_index(files, stack[i], 0);
        lemma_file_index(files, stack[j], 0);
        assert(stack[i] != stack[j]);
    }
    assert(ps.no_duplicates());
    ps.unique_seq_to_set();
    let all = vstd::set_lib::set_int_range(0, files.len() as int);
    vstd::set_lib::lemma_int_range(0, files.len() as int);
    assert(ps.to_set().subset_of(all)) by {
        assert forall|x: int| ps.to_set().contains(x) implies all.contains(x) by {
            let i = choose|i: int| 0 <= i < ps.len() && ps[i] == x;
            lemma_file_index(files, stack[i], 0);
        }
    }
    vstd::set_lib::lemma_len_subset(ps.to_set(), all);
}

/// What a load keeps: files are loaded once and, as long as nothing is wrong, behind their imports;
/// nothing that was loaded or reported is lost; no file that is being loaded is loaded again.
spec fn load_ok(files: Seq<SourceFile>, stack: Seq<Seq<char>>, st: LoadView, end: LoadView) -> bool {
    &&& visits_ok(files, end.order)
    &&& loads_once(files, end.order)
    &&& end.errors.len() == 0 ==> imports_first(files, end.order)
    &&& st.errors.len() <= end.errors.len()
    &&& st.need is Some ==> end.need is Some
    &&& forall|k: Seq<char>| #[trigger] is_loaded(files, st.order, k) ==> is_loaded(files, end.order, k)
    &&& forall|k: Seq<char>|
        stack.contains(k) && #[trigger] is_loaded(files, end.order, k) ==> is_loaded(
            files,
            st.order,
            k,
        )
}

spec fn load_starts(files: Seq<SourceFile>, st: LoadView) -> bool {
    &&& visits_ok(files, st.order)
    &&& loads_once(files, st.order)
    &&& st.errors.len() == 0 ==> imports_first(files, st.order)
}

proof fn lemma_loaded_push(files: Seq<SourceFile>, order: Seq<VisitView>, v: VisitView, k: Seq<char>)
    ensures
        is_loaded(files, order.push(v), k) <==> is_loaded(files, order, k) || files[v.file].key@ == k,
{
    if is_loaded(files, order, k) {
        let i = choose|i: int| 0 <= i < order.len() && files[(#[trigger] order[i]).file].key@ == k;
        assert(order.push(v)[i] == order[i]);
    }
    if files[v.file].key@ == k {
        assert(order.push(v)[order.len() as int] == v);
    }
    if is_loaded(files, order.push(v), k) {
        let i = choose|i: int|
            0 <= i < order.push(v).len() && files[(#[trigger] order.push(v)[i]).file].key@ == k;
        if i < order.len() {
            assert(order.push(v)[i] == order[i]);
        }
    }
}

proof fn lemma_load_pushed(files: Seq<SourceFile>, before: LoadView, v: VisitView)
    requires
        load_starts(files, before),
        0 <= v.file < files.len(),
        files[v.file].content is Parsed,
        !is_loaded(files, before.order, files[v.file].key@),
        before.errors.len() == 0 ==> forall|c: int|
            0 <= c < imports_of(files[v.file]).len() ==> is_loaded(
                files,
                before.order,
                (#[trigger] imports_of(files[v.file])[c]).key@,
            ),
    ensures
        load_starts(files, LoadView { order: before.order.push(v), ..before }),
{
    let order = before.order;
    let after = order.push(v);
    lemma_visits_push(files, order, v);
    assert forall|i: int, j: int| 0 <= i < j < after.len() implies files[(
    #[trigger] after[i]).file].key@ != files[(#[trigger] after[j]).file].key@ by {
        assert(after[i] == order[i]);
        if j < order.len() {
            assert(after[j] == order[j]);
        } else if files[order[i].file].key@ == files[v.file].key@ {
            assert(is_loaded(files, order, files[v.file].key@));
        }
    }
    if before.errors.len() == 0 {
        assert forall|i: int, c: int|
            #![trigger imports_of(files[after[i].file])[c]]
            0 <= i < after.len() && 0 <= c < imports_of(files[after[i].file]).len() implies is_loaded(
            files,
            after.take(i),
            imports_of(files[after[i].file])[c].key@,
        ) by {
            if i < order.len() {
                assert(after[i] == order[i]);
                assert(after.take(i) =~= order.take(i));
                assert(is_loaded(
                    files,
                    order.take(i),
                    imports_of(files[order[i].file])[c].key@,
                ));
            } else {
                assert(after.take(i) =~= order);
            }
        }
    }
}

proof fn lemma_load_file(
    files: Seq<SourceFile>,
    key: Seq<char>,
    display: Seq<char>,
    stack: Seq<Seq<char>>,
    st: LoadView,
)
    requires
        stack_ok(files, stack),
        load_starts(files, st),
    ensures
        load_ok(files, stack, st, load_file(files, key, display, stack, st)),
        ({
            let end = load_file(files, key, display, stack, st);
            end.need is None && end.errors.len() == 0 ==> is_loaded(files, end.order, key)
        }),
    decreases files.len() + 1 - stack.len(), 0int,
{
    let end = load_file(files, key, display, stack, st);
    lemma_stack_fits(files, stack);
    lemma_file_index(files, key, 0);
    if st.need is Some || is_loaded(files, st.order, key) || stack.contains(key) {
    } else if let Some(i) = file_index(files, key, 0) {
        if let Content::Parsed { program, children } = files[i].content {
            let inner = stack.push(key);
            assert forall|a: int, b: int|
                0 <= a < inner.len() && 0 <= b < inner.len() && a != b implies inner[a]
                != inner[b] by {
                if a < stack.len() && b < stack.len() {
                    assert(stack[a] != stack[b]);
                } else if a < stack.len() {
                    assert(stack.contains(stack[a]));
                } else {
                    assert(stack.contains(stack[b]));
                }
            }
            assert forall|a: int| 0 <= a < inner.len() implies file_index(
                files,
                #[trigger] inner[a],
                0,
            ) is Some by {
                if a < stack.len() {
                    assert(file_index(files, stack[a], 0) is Some);
                }
            }
            lemma_stack_fits(files, inner);
            lemma_load_children(files, children@, children@.len() as int, inner, st);
            let behind = load_children(files, children@, children@.len() as int, inner, st);
            assert(inner[stack.len() as int] == key);
            assert(inner.contains(key));
            assert forall|k: Seq<char>| stack.contains(k) && #[trigger] is_loaded(
                files,
                behind.order,
                k,
            ) implies is_loaded(files, st.order, k) by {
                let a = choose|a: int| 0 <= a < stack.len() && stack[a] == k;
                assert(inner[a] == k);
            }
            if behind.need is None {
                let v = VisitView { file: i, display };
                if behind.errors.len() == 0 {
                    assert forall|c: int| 0 <= c < imports_of(files[i]).len() implies is_loaded(
                        files,
                        behind.order,
                        (#[trigger] imports_of(files[i])[c]).key@,
                    ) by {
                        assert(imports_of(files[i])[c] == children@[c]);
                    }
                }
                lemma_load_pushed(files, behind, v);
                lemma_loaded_push(files, behind.order, v, key);
                assert forall|k: Seq<char>| stack.contains(k) && #[trigger] is_loaded(
                    files,
                    end.order,
                    k,
                ) implies is_loaded(files, st.order, k) by {
                    lemma_loaded_push(files, behind.order, v, k);
                }
                assert forall|k: Seq<char>| #[trigger] is_loaded(
                    files,
                    st.order,
                    k,
                ) implies is_loaded(files, end.order, k) by {
                    lemma_loaded_push(files, behind.order, v, k);
                }
            }
        }
    }
}

proof fn lemma_load_children(
    files: Seq<SourceFile>,
    children: Seq<Child>,
    n: int,
    stack: Seq<Seq<char>>,
    st: LoadView,
)
    requires
        stack_ok(files, stack),
        load_starts(files, st),
        0 <= n <= children.len(),
    ensures
        load_ok(files, stack, st, load_children(files, children, n, stack, st)),
        ({
            let end = load_children(files, children, n, stack, st);
            end.need is None && end.errors.len() == 0 ==> forall|c: int|
                0 <= c < n ==> is_loaded(files, end.order, (#[trigger] children[c]).key@)
        }),
    decreases files.len() + 1 - stack.len(), n,
{
    lemma_stack_fits(files, stack);
    if n > 0 {
        let before = load_children(files, children, n - 1, stack, st);
        lemma_load_children(files, children, n - 1, stack, st);
        lemma_load_file(
            files,
            children[n - 1].key@,
            children[n - 1].display@,
            stack,
            before,
        );
    }
}

/// A load that succeeds loads each file once and behind the files that it imports; so no file imports
/// itself, directly or through others.
pub proof fn law_files_load_once_behind_their_imports(
    files: Seq<SourceFile>,
    key: Seq<char>,
    entry: Seq<char>,
)
    ensures
        ({
            let st = loaded_from(files, key, entry);
            st.need is None && st.errors.len() == 0 ==> loads_once(files, st.order)
                && imports_first(files, st.order)
        }),
{
    lemma_load_file(files, key, entry, Seq::empty(), no_load());
}

} // verus!
