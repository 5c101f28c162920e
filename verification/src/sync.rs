//! The server side of synced collections: writes merge field by field, the latest stamp wins, and a
//! deletion holds against every write that is not later.
use vstd::multiset::Multiset;
use vstd::prelude::*;
use vstd::string::*;

use crate::json::{held_text, json_out, member, JView, J};
use crate::num::{nat_text, u128_text};
use crate::order::{is_before, sort_parts, sorted_texts, text_lt};
use crate::strmap::StrMap;
use crate::text::{cat11, cat5, cat7, join_text, same, Parts};
use crate::value::{json_str, json_text, Number, NumberView};

verus! {

/// A written field: its value as JSON, and the stamp of the write.
#[derive(Debug)]
pub struct Cell {
    pub field: String,
    pub value: String,
    pub lamport: u64,
    pub site: String,
}

/// A row: its fields, and the stamp of its deletion.
#[derive(Debug)]
pub struct Row {
    pub id: String,
    pub cells: Vec<Cell>,
    pub tomb: Option<(u64, String)>,
}

/// A synced collection: its rows, and the largest stamp that it has seen.
#[derive(Debug)]
pub struct Collection {
    pub rows: Vec<Row>,
    pub lamport: u64,
}

/// A written field, by its texts.
pub struct CellView {
    pub field: Seq<char>,
    pub value: Seq<char>,
    pub lamport: nat,
    pub site: Seq<char>,
}

/// A row, by its texts.
pub struct RowView {
    pub id: Seq<char>,
    pub cells: Seq<CellView>,
    pub tomb: Option<(nat, Seq<char>)>,
}

/// A synced collection, by its texts.
pub struct CollectionView {
    pub rows: Seq<RowView>,
    pub lamport: nat,
}

impl View for Cell {
    type V = CellView;

    open spec fn view(&self) -> CellView {
        CellView {
            field: self.field@,
            value: self.value@,
            lamport: self.lamport as nat,
            site: self.site@,
        }
    }
}

/// The first `n` written fields, by their texts.
pub open spec fn cells_view(cs: Seq<Cell>, n: int) -> Seq<CellView>
    decreases n,
{
    if n <= 0 || n > cs.len() {
        Seq::empty()
    } else {
        cells_view(cs, n - 1).push(cs[n - 1]@)
    }
}

/// A stamp, by its texts.
pub open spec fn tomb_view(t: Option<(u64, String)>) -> Option<(nat, Seq<char>)> {
    match t {
        Some(x) => Some((x.0 as nat, x.1@)),
        None => None,
    }
}

impl View for Row {
    type V = RowView;

    open spec fn view(&self) -> RowView {
        RowView {
            id: self.id@,
            cells: cells_view(self.cells@, self.cells@.len() as int),
            tomb: tomb_view(self.tomb),
        }
    }
}

/// The first `n` rows, by their texts.
pub open spec fn rows_of(rs: Seq<Row>, n: int) -> Seq<RowView>
    decreases n,
{
    if n <= 0 || n > rs.len() {
        Seq::empty()
    } else {
        rows_of(rs, n - 1).push(rs[n - 1]@)
    }
}

impl View for Collection {
    type V = CollectionView;

    open spec fn view(&self) -> CollectionView {
        CollectionView {
            rows: rows_of(self.rows@, self.rows@.len() as int),
            lamport: self.lamport as nat,
        }
    }
}

proof fn lemma_cells_view(cs: Seq<Cell>, n: int)
    requires
        0 <= n <= cs.len(),
    ensures
        cells_view(cs, n).len() == n,
        forall|i: int| 0 <= i < n ==> #[trigger] cells_view(cs, n)[i] == cs[i]@,
    decreases n,
{
    if n > 0 {
        lemma_cells_view(cs, n - 1);
    }
}

proof fn lemma_rows_of(rs: Seq<Row>, n: int)
    requires
        0 <= n <= rs.len(),
    ensures
        rows_of(rs, n).len() == n,
        forall|i: int| 0 <= i < n ==> #[trigger] rows_of(rs, n)[i] == rs[i]@,
    decreases n,
{
    if n > 0 {
        lemma_rows_of(rs, n - 1);
    }
}

/// Whether a stamp is later than another: by its count, then by its site.
pub open spec fn later(al: nat, asite: Seq<char>, bl: nat, bsite: Seq<char>) -> bool {
    al > bl || (al == bl && text_lt(bsite, asite))
}

/// Whether a stamp is later than another.
pub fn stamp_gt(al: u64, asite: &str, bl: u64, bsite: &str) -> (r: bool)
    ensures
        r == later(al as nat, asite@, bl as nat, bsite@),
{
    al > bl || (al == bl && is_before(bsite, asite))
}

/// A write or a deletion.
#[derive(Debug)]
pub struct Op {
    pub kind: String,
    pub id: String,
    pub field: String,
    pub value: String,
    pub lamport: u64,
    pub site: String,
}

/// A write or a deletion, by its texts.
pub struct OpView {
    pub kind: Seq<char>,
    pub id: Seq<char>,
    pub field: Seq<char>,
    pub value: Seq<char>,
    pub lamport: nat,
    pub site: Seq<char>,
}

impl View for Op {
    type V = OpView;

    open spec fn view(&self) -> OpView {
        OpView {
            kind: self.kind@,
            id: self.id@,
            field: self.field@,
            value: self.value@,
            lamport: self.lamport as nat,
            site: self.site@,
        }
    }
}

/// The text of a member of a JSON value; the empty one where it has none.
pub open spec fn text_member(j: JView, k: Seq<char>) -> Seq<char> {
    match member(j, k) {
        Some(v) => held_text(v),
        None => ""@,
    }
}

/// The count that a member of a JSON value holds; zero where it holds none.
pub open spec fn count_member(j: JView, k: Seq<char>, counts: Map<Seq<char>, u64>) -> nat {
    match member(j, k) {
        Some(JView::Num(t)) => if counts.dom().contains(t) {
            counts[t] as nat
        } else {
            0
        },
        _ => 0,
    }
}

/// The operation that a JSON value tells.
pub open spec fn op_of(
    j: JView,
    nums: Map<Seq<char>, NumberView>,
    counts: Map<Seq<char>, u64>,
) -> OpView {
    OpView {
        kind: text_member(j, "kind"@),
        id: text_member(j, "id"@),
        field: text_member(j, "field"@),
        value: match member(j, "value"@) {
            Some(v) => json_out(v, nums),
            None => "null"@,
        },
        lamport: count_member(j, "lamport"@, counts),
        site: text_member(j, "site"@),
    }
}

fn text_at_key(j: &J, k: &str) -> (r: String)
    ensures
        r@ == text_member(j@, k@),
{
    match j.get(k) {
        Some(v) => v.as_string(),
        None => "".to_owned(),
    }
}

fn count_at_key(j: &J, k: &str, counts: &StrMap<u64>) -> (r: u64)
    ensures
        r == count_member(j@, k@, counts@),
{
    match j.get(k) {
        Some(J::Num(t)) => match counts.get(t) {
            Some(n) => *n,
            None => 0,
        },
        _ => 0,
    }
}

/// The operation that a JSON value tells.
pub fn read_op(j: &J, nums: &StrMap<Number>, counts: &StrMap<u64>) -> (r: Op)
    ensures
        r@ == op_of(j@, nums@, counts@),
{
    Op {
        kind: text_at_key(j, "kind"),
        id: text_at_key(j, "id"),
        field: text_at_key(j, "field"),
        value: match j.get("value") {
            Some(v) => v.to_json(nums),
            None => "null".to_owned(),
        },
        lamport: count_at_key(j, "lamport", counts),
        site: text_at_key(j, "site"),
    }
}

/// The first row with an id.
pub open spec fn row_index(rs: Seq<RowView>, n: int, id: Seq<char>) -> Option<int>
    decreases n,
{
    if n <= 0 || n > rs.len() {
        None
    } else {
        match row_index(rs, n - 1, id) {
            Some(i) => Some(i),
            None => if rs[n - 1].id == id {
                Some(n - 1)
            } else {
                None
            },
        }
    }
}

/// The first written field with a name.
pub open spec fn cell_index(cs: Seq<CellView>, n: int, field: Seq<char>) -> Option<int>
    decreases n,
{
    if n <= 0 || n > cs.len() {
        None
    } else {
        match cell_index(cs, n - 1, field) {
            Some(i) => Some(i),
            None => if cs[n - 1].field == field {
                Some(n - 1)
            } else {
                None
            },
        }
    }
}

/// The field that an operation writes.
pub open spec fn written(op: OpView) -> CellView {
    CellView { field: op.field, value: op.value, lamport: op.lamport, site: op.site }
}

/// A row after a write: the field is the write's, unless it has a stamp that is as late.
pub open spec fn with_write(row: RowView, op: OpView) -> RowView {
    match cell_index(row.cells, row.cells.len() as int, op.field) {
        None => RowView { cells: row.cells.push(written(op)), ..row },
        Some(i) => if later(op.lamport, op.site, row.cells[i].lamport, row.cells[i].site) {
            RowView { cells: row.cells.update(i, written(op)), ..row }
        } else {
            row
        },
    }
}

/// A row after a deletion: the latest deletion is kept.
pub open spec fn with_tomb(row: RowView, op: OpView) -> RowView {
    match row.tomb {
        None => RowView { tomb: Some((op.lamport, op.site)), ..row },
        Some(t) => if later(op.lamport, op.site, t.0, t.1) {
            RowView { tomb: Some((op.lamport, op.site)), ..row }
        } else {
            row
        },
    }
}

/// A row after an operation.
pub open spec fn with_op(row: RowView, op: OpView) -> RowView {
    if op.kind == "set"@ {
        if op.field.len() == 0 {
            row
        } else {
            with_write(row, op)
        }
    } else if op.kind == "del"@ {
        with_tomb(row, op)
    } else {
        row
    }
}

/// A row of which nothing is known.
pub open spec fn empty_row(id: Seq<char>) -> RowView {
    RowView { id, cells: Seq::empty(), tomb: None }
}

/// A collection after an operation. An operation without an id is none.
pub open spec fn merged(c: CollectionView, op: OpView) -> CollectionView {
    if op.id.len() == 0 {
        c
    } else {
        CollectionView {
            lamport: if op.lamport > c.lamport {
                op.lamport
            } else {
                c.lamport
            },
            rows: match row_index(c.rows, c.rows.len() as int, op.id) {
                Some(i) => c.rows.update(i, with_op(c.rows[i], op)),
                None => c.rows.push(with_op(empty_row(op.id), op)),
            },
        }
    }
}

fn find_row(rs: &Vec<Row>, id: &str) -> (r: Option<usize>)
    ensures
        match r {
            Some(i) => i < rs@.len() && row_index(
                rows_of(rs@, rs@.len() as int),
                rs@.len() as int,
                id@,
            ) == Some(i as int),
            None => row_index(rows_of(rs@, rs@.len() as int), rs@.len() as int, id@) is None,
        },
{
    let ghost vs = rows_of(rs@, rs@.len() as int);
    proof {
        lemma_rows_of(rs@, rs@.len() as int);
    }
    let mut found: Option<usize> = None;
    let mut i: usize = 0;
    while i < rs.len()
        invariant
            i <= rs@.len(),
            vs.len() == rs@.len(),
            forall|j: int| 0 <= j < rs@.len() ==> #[trigger] vs[j] == rs@[j]@,
            match found {
                Some(x) => x < i && row_index(vs, i as int, id@) == Some(x as int),
                None => row_index(vs, i as int, id@) is None,
            },
        decreases rs.len() - i,
    {
        if found.is_none() && same(&rs[i].id, id) {
            found = Some(i);
        }
        i = i + 1;
    }
    found
}

fn find_cell(cs: &Vec<Cell>, field: &str) -> (r: Option<usize>)
    ensures
        match r {
            Some(i) => i < cs@.len() && cell_index(
                cells_view(cs@, cs@.len() as int),
                cs@.len() as int,
                field@,
            ) == Some(i as int),
            None => cell_index(cells_view(cs@, cs@.len() as int), cs@.len() as int, field@) is None,
        },
{
    let ghost vs = cells_view(cs@, cs@.len() as int);
    proof {
        lemma_cells_view(cs@, cs@.len() as int);
    }
    let mut found: Option<usize> = None;
    let mut i: usize = 0;
    while i < cs.len()
        invariant
            i <= cs@.len(),
            vs.len() == cs@.len(),
            forall|j: int| 0 <= j < cs@.len() ==> #[trigger] vs[j] == cs@[j]@,
            match found {
                Some(x) => x < i && cell_index(vs, i as int, field@) == Some(x as int),
                None => cell_index(vs, i as int, field@) is None,
            },
        decreases cs.len() - i,
    {
        if found.is_none() && same(&cs[i].field, field) {
            found = Some(i);
        }
        i = i + 1;
    }
    found
}

fn cell_for(op: &Op) -> (r: Cell)
    ensures
        r@ == written(op@),
{
    Cell {
        field: op.field.clone(),
        value: op.value.clone(),
        lamport: op.lamport,
        site: op.site.clone(),
    }
}

fn write_cell(row: Row, op: &Op) -> (r: Row)
    ensures
        r@ == with_write(row@, op@),
{
    let mut row = row;
    let ghost before = row.cells@;
    proof {
        lemma_cells_view(before, before.len() as int);
    }
    match find_cell(&row.cells, &op.field) {
        None => {
            row.cells.push(cell_for(op));
            proof {
                lemma_cells_view(row.cells@, row.cells@.len() as int);
                assert(cells_view(row.cells@, row.cells@.len() as int) =~= cells_view(
                    before,
                    before.len() as int,
                ).push(written(op@)));
            }
        },
        Some(i) => {
            proof {
                assert(cells_view(before, before.len() as int)[i as int] == before[i as int]@);
            }
            if stamp_gt(op.lamport, &op.site, row.cells[i].lamport, &row.cells[i].site) {
                row.cells.set(i, cell_for(op));
                proof {
                    lemma_cells_view(row.cells@, row.cells@.len() as int);
                    assert(cells_view(row.cells@, row.cells@.len() as int) =~= cells_view(
                        before,
                        before.len() as int,
                    ).update(i as int, written(op@)));
                }
            }
        },
    }
    row
}

fn bury(row: Row, op: &Op) -> (r: Row)
    ensures
        r@ == with_tomb(row@, op@),
{
    let mut row = row;
    let win: bool = match &row.tomb {
        None => true,
        Some((l, s)) => stamp_gt(op.lamport, &op.site, *l, s),
    };
    if win {
        row.tomb = Some((op.lamport, op.site.clone()));
    }
    row
}

fn apply_to_row(row: Row, op: &Op) -> (r: Row)
    ensures
        r@ == with_op(row@, op@),
{
    if same(&op.kind, "set") {
        if op.field.as_str().unicode_len() == 0 {
            row
        } else {
            write_cell(row, op)
        }
    } else if same(&op.kind, "del") {
        bury(row, op)
    } else {
        row
    }
}

impl Collection {
    /// The empty collection.
    pub fn new() -> (r: Collection)
        ensures
            r@ == (CollectionView { rows: Seq::empty(), lamport: 0 }),
    {
        let r = Collection { rows: Vec::new(), lamport: 0 };
        proof {
            assert(rows_of(r.rows@, 0) =~= Seq::<RowView>::empty());
        }
        r
    }

    /// Merges an operation.
    pub fn merge(&mut self, op: &Op)
        ensures
            final(self)@ == merged(old(self)@, op@),
    {
        if op.id.as_str().unicode_len() == 0 {
            return;
        }
        if op.lamport > self.lamport {
            self.lamport = op.lamport;
        }
        let ghost before = self.rows@;
        proof {
            lemma_rows_of(before, before.len() as int);
        }
        match find_row(&self.rows, &op.id) {
            Some(i) => {
                proof {
                    assert(rows_of(before, before.len() as int)[i as int] == before[i as int]@);
                }
                let row = self.rows.remove(i);
                let row = apply_to_row(row, op);
                let ghost new = row@;
                self.rows.insert(i, row);
                proof {
                    lemma_rows_of(self.rows@, self.rows@.len() as int);
                    assert(rows_of(self.rows@, self.rows@.len() as int) =~= rows_of(
                        before,
                        before.len() as int,
                    ).update(i as int, new));
                }
            },
            None => {
                let row = Row { id: op.id.clone(), cells: Vec::new(), tomb: None };
                proof {
                    assert(cells_view(row.cells@, 0) =~= Seq::<CellView>::empty());
                }
                let row = apply_to_row(row, op);
                let ghost new = row@;
                self.rows.push(row);
                proof {
                    lemma_rows_of(self.rows@, self.rows@.len() as int);
                    assert(rows_of(self.rows@, self.rows@.len() as int) =~= rows_of(
                        before,
                        before.len() as int,
                    ).push(new));
                }
            },
        }
    }
}

/// Whether one of the first `n` fields was written later than a stamp.
pub open spec fn any_later(cs: Seq<CellView>, n: int, l: nat, site: Seq<char>) -> bool
    decreases n,
{
    if n <= 0 || n > cs.len() {
        false
    } else {
        any_later(cs, n - 1, l, site) || later(cs[n - 1].lamport, cs[n - 1].site, l, site)
    }
}

/// Whether a row is there: it has a field, and was not deleted after its last write.
pub open spec fn alive(row: RowView) -> bool {
    match row.tomb {
        None => row.cells.len() > 0,
        Some(t) => any_later(row.cells, row.cells.len() as int, t.0, t.1),
    }
}

/// A write as JSON.
pub open spec fn set_text(id: Seq<char>, c: CellView) -> Seq<char> {
    "{\"kind\":\"set\",\"id\":"@ + json_text(id) + ",\"field\":"@ + json_text(c.field)
        + ",\"value\":"@ + c.value + ",\"lamport\":"@ + nat_text(c.lamport) + ",\"site\":"@
        + json_text(c.site) + "}"@
}

/// A deletion as JSON.
pub open spec fn del_text(id: Seq<char>, l: nat, site: Seq<char>) -> Seq<char> {
    "{\"kind\":\"del\",\"id\":"@ + json_text(id) + ",\"lamport\":"@ + nat_text(l)
        + ",\"site\":"@ + json_text(site) + "}"@
}

/// The first `n` fields of a row as writes.
pub open spec fn set_texts(id: Seq<char>, cs: Seq<CellView>, n: int) -> Seq<Seq<char>>
    decreases n,
{
    if n <= 0 || n > cs.len() {
        Seq::empty()
    } else {
        set_texts(id, cs, n - 1).push(set_text(id, cs[n - 1]))
    }
}

/// What there is to tell of a row: its fields where it is there, else its deletion.
pub open spec fn row_texts(row: RowView) -> Seq<Seq<char>> {
    if alive(row) {
        set_texts(row.id, row.cells, row.cells.len() as int)
    } else {
        match row.tomb {
            Some(t) => seq![del_text(row.id, t.0, t.1)],
            None => Seq::empty(),
        }
    }
}

/// What there is to tell of the first `n` rows.
pub open spec fn told(rs: Seq<RowView>, n: int) -> Seq<Seq<char>>
    decreases n,
{
    if n <= 0 || n > rs.len() {
        Seq::empty()
    } else {
        told(rs, n - 1) + row_texts(rs[n - 1])
    }
}

/// The state of a collection as the answer to a client.
pub open spec fn state_text(c: CollectionView) -> Seq<char> {
    let texts = told(c.rows, c.rows.len() as int);
    "{\"lamport\":"@ + nat_text(c.lamport) + ",\"ops\":["@ + join_text(
        sorted_texts(texts, texts.len() as int),
        ","@,
    ) + "]}"@
}

fn u64_text(n: u64) -> (r: String)
    ensures
        r@ == nat_text(n as nat),
{
    u128_text(n as u128)
}

fn has_later(cs: &Vec<Cell>, l: u64, site: &str) -> (r: bool)
    ensures
        r == any_later(cells_view(cs@, cs@.len() as int), cs@.len() as int, l as nat, site@),
{
    let ghost vs = cells_view(cs@, cs@.len() as int);
    proof {
        lemma_cells_view(cs@, cs@.len() as int);
    }
    let mut out: bool = false;
    let mut i: usize = 0;
    while i < cs.len()
        invariant
            i <= cs@.len(),
            vs.len() == cs@.len(),
            forall|j: int| 0 <= j < cs@.len() ==> #[trigger] vs[j] == cs@[j]@,
            out == any_later(vs, i as int, l as nat, site@),
        decreases cs.len() - i,
    {
        let here: bool = stamp_gt(cs[i].lamport, &cs[i].site, l, site);
        out = out || here;
        i = i + 1;
    }
    out
}

fn tell_cells(id: &str, cs: &Vec<Cell>) -> (r: Parts)
    ensures
        r@ == set_texts(id@, cells_view(cs@, cs@.len() as int), cs@.len() as int),
{
    let ghost vs = cells_view(cs@, cs@.len() as int);
    proof {
        lemma_cells_view(cs@, cs@.len() as int);
    }
    let mut out = Parts::new();
    let mut i: usize = 0;
    while i < cs.len()
        invariant
            i <= cs@.len(),
            vs.len() == cs@.len(),
            forall|j: int| 0 <= j < cs@.len() ==> #[trigger] vs[j] == cs@[j]@,
            out@ == set_texts(id@, vs, i as int),
        decreases cs.len() - i,
    {
        let c = &cs[i];
        out.push(
            cat11(
                "{\"kind\":\"set\",\"id\":",
                &json_str(id),
                ",\"field\":",
                &json_str(&c.field),
                ",\"value\":",
                &c.value,
                ",\"lamport\":",
                &u64_text(c.lamport),
                ",\"site\":",
                &json_str(&c.site),
                "}",
            ),
        );
        i = i + 1;
    }
    out
}

fn tell_row(row: &Row) -> (r: Parts)
    ensures
        r@ == row_texts(row@),
{
    proof {
        lemma_cells_view(row.cells@, row.cells@.len() as int);
    }
    let there: bool = match &row.tomb {
        None => row.cells.len() > 0,
        Some((l, s)) => has_later(&row.cells, *l, s),
    };
    if there {
        tell_cells(&row.id, &row.cells)
    } else {
        let mut out = Parts::new();
        if let Some((l, s)) = &row.tomb {
            out.push(
                cat7(
                    "{\"kind\":\"del\",\"id\":",
                    &json_str(&row.id),
                    ",\"lamport\":",
                    &u64_text(*l),
                    ",\"site\":",
                    &json_str(s),
                    "}",
                ),
            );
            proof {
                assert(out@ =~= seq![del_text(row.id@, *l as nat, s@)]);
            }
        }
        out
    }
}

impl Collection {
    /// The state of the collection as the answer to a client: what there is to tell of each row, sorted.
    pub fn state(&self) -> (r: String)
        ensures
            r@ == state_text(self@),
    {
        let ghost vs = rows_of(self.rows@, self.rows@.len() as int);
        proof {
            lemma_rows_of(self.rows@, self.rows@.len() as int);
        }
        let mut out = Parts::new();
        let mut i: usize = 0;
        while i < self.rows.len()
            invariant
                i <= self.rows@.len(),
                vs.len() == self.rows@.len(),
                forall|j: int| 0 <= j < self.rows@.len() ==> #[trigger] vs[j] == self.rows@[j]@,
                out@ == told(vs, i as int),
            decreases self.rows.len() - i,
        {
            let x = tell_row(&self.rows[i]);
            out.extend(x);
            i = i + 1;
        }
        let sorted = sort_parts(&out);
        cat5(
            "{\"lamport\":",
            &u64_text(self.lamport),
            ",\"ops\":[",
            &sorted.join(","),
            "]}",
        )
    }
}

/// A collection after the first `n` operations of a list.
pub open spec fn merged_all(
    c: CollectionView,
    ops: Seq<JView>,
    n: int,
    nums: Map<Seq<char>, NumberView>,
    counts: Map<Seq<char>, u64>,
) -> CollectionView
    decreases n,
{
    if n <= 0 || n > ops.len() {
        c
    } else {
        merged(merged_all(c, ops, n - 1, nums, counts), op_of(ops[n - 1], nums, counts))
    }
}

/// A collection after a request.
pub open spec fn after_request(
    c: CollectionView,
    req: JView,
    nums: Map<Seq<char>, NumberView>,
    counts: Map<Seq<char>, u64>,
) -> CollectionView {
    match member(req, "ops"@) {
        Some(JView::Arr(ops)) => merged_all(c, ops, ops.len() as int, nums, counts),
        _ => c,
    }
}

/// Handles a sync request: merges its operations, and answers with the state of the collection. What
/// its written numbers stand for is given, as numbers and as counts.
pub fn sync_dispatch(
    cs: &mut Collection,
    req: &J,
    nums: &StrMap<Number>,
    counts: &StrMap<u64>,
) -> (r: String)
    ensures
        final(cs)@ == after_request(old(cs)@, req@, nums@, counts@),
        r@ == state_text(final(cs)@),
{
    if let Some(J::Arr(ops)) = req.get("ops") {
        let ghost vs = crate::json::jsons_view(ops@, ops@.len() as int);
        proof {
            crate::json::lemma_jsons_view(ops@, ops@.len() as int);
        }
        let mut i: usize = 0;
        while i < ops.len()
            invariant
                i <= ops@.len(),
                vs.len() == ops@.len(),
                forall|j: int|
                    0 <= j < ops@.len() ==> #[trigger] vs[j] == crate::json::json_view(ops@[j]),
                cs@ == merged_all(old(cs)@, vs, i as int, nums@, counts@),
            decreases ops.len() - i,
        {
            let op = read_op(&ops[i], nums, counts);
            cs.merge(&op);
            i = i + 1;
        }
    }
    cs.state()
}

/// The field of a row of a collection, where it was written.
pub open spec fn cell_of(c: CollectionView, id: Seq<char>, field: Seq<char>) -> Option<CellView> {
    match row_index(c.rows, c.rows.len() as int, id) {
        Some(i) => row_cell(c.rows[i], field),
        None => None,
    }
}

/// The field of a row, where it was written.
pub open spec fn row_cell(row: RowView, field: Seq<char>) -> Option<CellView> {
    match cell_index(row.cells, row.cells.len() as int, field) {
        Some(k) => Some(row.cells[k]),
        None => None,
    }
}

/// The deletion of a row of a collection, where it was deleted.
pub open spec fn tomb_of(c: CollectionView, id: Seq<char>) -> Option<(nat, Seq<char>)> {
    match row_index(c.rows, c.rows.len() as int, id) {
        Some(i) => c.rows[i].tomb,
        None => None,
    }
}

/// Whether two collections hold the same: the largest stamp, every field and every deletion.
pub open spec fn same_state(a: CollectionView, b: CollectionView) -> bool {
    &&& a.lamport == b.lamport
    &&& forall|id: Seq<char>, field: Seq<char>| #[trigger]
        cell_of(a, id, field) == cell_of(b, id, field)
    &&& forall|id: Seq<char>| #[trigger] tomb_of(a, id) == tomb_of(b, id)
}

/// Whether two operations are two different writes of one field under one stamp.
pub open spec fn clash(a: OpView, b: OpView) -> bool {
    &&& a.kind == "set"@
    &&& b.kind == "set"@
    &&& a.id == b.id
    &&& a.field == b.field
    &&& a.lamport == b.lamport
    &&& a.site == b.site
    &&& a.value != b.value
}

proof fn lemma_row_index(rs: Seq<RowView>, n: int, id: Seq<char>)
    requires
        n <= rs.len(),
    ensures
        match row_index(rs, n, id) {
            Some(i) => 0 <= i < n && rs[i].id == id && (forall|j: int|
                0 <= j < i ==> (#[trigger] rs[j]).id != id),
            None => forall|j: int| 0 <= j < n ==> (#[trigger] rs[j]).id != id,
        },
    decreases n,
{
    if n > 0 {
        lemma_row_index(rs, n - 1, id);
    }
}

proof fn lemma_cell_index(cs: Seq<CellView>, n: int, field: Seq<char>)
    requires
        n <= cs.len(),
    ensures
        match cell_index(cs, n, field) {
            Some(i) => 0 <= i < n && cs[i].field == field && (forall|j: int|
                0 <= j < i ==> (#[trigger] cs[j]).field != field),
            None => forall|j: int| 0 <= j < n ==> (#[trigger] cs[j]).field != field,
        },
    decreases n,
{
    if n > 0 {
        lemma_cell_index(cs, n - 1, field);
    }
}

/// What a field is after a write of it.
spec fn won(old_cell: Option<CellView>, op: OpView) -> CellView {
    match old_cell {
        None => written(op),
        Some(c) => if later(op.lamport, op.site, c.lamport, c.site) {
            written(op)
        } else {
            c
        },
    }
}

/// What a deletion is after another.
spec fn won_tomb(old_tomb: Option<(nat, Seq<char>)>, op: OpView) -> (nat, Seq<char>) {
    match old_tomb {
        None => (op.lamport, op.site),
        Some(t) => if later(op.lamport, op.site, t.0, t.1) {
            (op.lamport, op.site)
        } else {
            t
        },
    }
}

spec fn writes(op: OpView, id: Seq<char>, field: Seq<char>) -> bool {
    op.id == id && op.id.len() > 0 && op.kind == "set"@ && op.field == field && op.field.len() > 0
}

spec fn buries(op: OpView, id: Seq<char>) -> bool {
    op.id == id && op.id.len() > 0 && op.kind == "del"@
}

proof fn lemma_row_after(row: RowView, op: OpView, field: Seq<char>)
    ensures
        with_op(row, op).id == row.id,
        row_cell(with_op(row, op), field) == (if op.kind == "set"@ && op.field == field
            && op.field.len() > 0 {
            Some(won(row_cell(row, field), op))
        } else {
            row_cell(row, field)
        }),
        with_op(row, op).tomb == (if op.kind == "del"@ {
            Some(won_tomb(row.tomb, op))
        } else {
            row.tomb
        }),
{
    reveal_strlit("set");
    reveal_strlit("del");
    let cs = row.cells;
    let n = cs.len() as int;
    if op.kind == "set"@ && op.field.len() > 0 {
        lemma_cell_index(cs, n, op.field);
        lemma_cell_index(cs, n, field);
        let after = with_write(row, op).cells;
        lemma_cell_index(after, after.len() as int, field);
        assert("set"@ != "del"@) by {
            assert("set"@[0] != "del"@[0]);
        }
        match cell_index(cs, n, op.field) {
            None => {
                assert(after == cs.push(written(op)));
                match cell_index(cs, n, field) {
                    Some(k) => {
                        assert(after[k] == cs[k]);
                        let m = cell_index(after, after.len() as int, field)->0;
                        if m < k {
                            assert(after[m] == cs[m]);
                        }
                    },
                    None => {
                        if op.field == field {
                            assert(after[n] == written(op));
                            let m = cell_index(after, after.len() as int, field)->0;
                            if m < n {
                                assert(after[m] == cs[m]);
                            }
                        } else if cell_index(after, after.len() as int, field) is Some {
                            let m = cell_index(after, after.len() as int, field)->0;
                            if m < n {
                                assert(after[m] == cs[m]);
                            }
                        }
                    },
                }
            },
            Some(i) => {
                assert(forall|j: int|
                    0 <= j < n ==> (#[trigger] after[j]).field == cs[j].field);
                match cell_index(cs, n, field) {
                    Some(k) => {
                        assert(after[k].field == field);
                        let m = cell_index(after, after.len() as int, field)->0;
                        if m < k {
                            assert(cs[m].field != field);
                        }
                    },
                    None => {
                        if cell_index(after, after.len() as int, field) is Some {
                            let m = cell_index(after, after.len() as int, field)->0;
                            assert(cs[m].field == after[m].field);
                        }
                    },
                }
            },
        }
    } else if op.kind == "del"@ {
        assert("set"@ != "del"@) by {
            assert("set"@[0] != "del"@[0]);
        }
    }
}

proof fn lemma_after(c: CollectionView, op: OpView, id: Seq<char>, field: Seq<char>)
    ensures
        cell_of(merged(c, op), id, field) == (if writes(op, id, field) {
            Some(won(cell_of(c, id, field), op))
        } else {
            cell_of(c, id, field)
        }),
        tomb_of(merged(c, op), id) == (if buries(op, id) {
            Some(won_tomb(tomb_of(c, id), op))
        } else {
            tomb_of(c, id)
        }),
{
    if op.id.len() > 0 {
        let rs = c.rows;
        let n = rs.len() as int;
        let after = merged(c, op).rows;
        lemma_row_index(rs, n, op.id);
        lemma_row_index(rs, n, id);
        lemma_row_index(after, after.len() as int, id);
        match row_index(rs, n, op.id) {
            Some(i) => {
                lemma_row_after(rs[i], op, field);
                assert(forall|j: int| 0 <= j < n ==> (#[trigger] after[j]).id == rs[j].id);
                match row_index(rs, n, id) {
                    Some(k) => {
                        assert(after[k].id == id);
                        let m = row_index(after, after.len() as int, id)->0;
                        if m < k {
                            assert(rs[m].id != id);
                        }
                    },
                    None => {
                        if row_index(after, after.len() as int, id) is Some {
                            let m = row_index(after, after.len() as int, id)->0;
                            assert(rs[m].id == after[m].id);
                        }
                    },
                }
            },
            None => {
                let fresh = empty_row(op.id);
                lemma_row_after(fresh, op, field);
                assert(row_cell(fresh, field) is None);
                assert(after == rs.push(with_op(fresh, op)));
                match row_index(rs, n, id) {
                    Some(k) => {
                        assert(after[k] == rs[k]);
                        let m = row_index(after, after.len() as int, id)->0;
                        if m < k {
                            assert(after[m] == rs[m]);
                        }
                    },
                    None => {
                        if op.id == id {
                            assert(after[n].id == id);
                            let m = row_index(after, after.len() as int, id)->0;
                            if m < n {
                                assert(after[m] == rs[m]);
                            }
                        } else if row_index(after, after.len() as int, id) is Some {
                            let m = row_index(after, after.len() as int, id)->0;
                            if m < n {
                                assert(after[m] == rs[m]);
                            }
                        }
                    },
                }
            },
        }
    }
}

proof fn lemma_later(al: nat, asite: Seq<char>, bl: nat, bsite: Seq<char>)
    ensures
        !(later(al, asite, bl, bsite) && later(bl, bsite, al, asite)),
        later(al, asite, bl, bsite) || later(bl, bsite, al, asite) || (al == bl && asite == bsite),
        !later(al, asite, al, asite),
{
    crate::order::law_text_lt_total(asite, bsite);
    crate::order::law_text_lt_irreflexive(asite);
}

proof fn lemma_later_chain(
    al: nat,
    asite: Seq<char>,
    bl: nat,
    bsite: Seq<char>,
    cl: nat,
    csite: Seq<char>,
)
    ensures
        later(al, asite, bl, bsite) && later(bl, bsite, cl, csite) ==> later(al, asite, cl, csite),
{
    if al == bl && bl == cl && text_lt(bsite, asite) && text_lt(csite, bsite) {
        crate::order::law_text_lt_transitive(csite, bsite, asite);
    }
}

proof fn lemma_wins_commute(old_cell: Option<CellView>, a: OpView, b: OpView)
    requires
        !clash(a, b),
        a.kind == "set"@,
        b.kind == "set"@,
        a.id == b.id,
        a.field == b.field,
    ensures
        won(Some(won(old_cell, a)), b) == won(Some(won(old_cell, b)), a),
{
    lemma_later(a.lamport, a.site, b.lamport, b.site);
    if let Some(c) = old_cell {
        lemma_later(a.lamport, a.site, c.lamport, c.site);
        lemma_later(b.lamport, b.site, c.lamport, c.site);
        lemma_later_chain(a.lamport, a.site, b.lamport, b.site, c.lamport, c.site);
        lemma_later_chain(b.lamport, b.site, a.lamport, a.site, c.lamport, c.site);
        lemma_later_chain(a.lamport, a.site, c.lamport, c.site, b.lamport, b.site);
        lemma_later_chain(b.lamport, b.site, c.lamport, c.site, a.lamport, a.site);
    }
}

proof fn lemma_tombs_commute(old_tomb: Option<(nat, Seq<char>)>, a: OpView, b: OpView)
    ensures
        won_tomb(Some(won_tomb(old_tomb, a)), b) == won_tomb(Some(won_tomb(old_tomb, b)), a),
{
    lemma_later(a.lamport, a.site, b.lamport, b.site);
    if let Some(c) = old_tomb {
        lemma_later(a.lamport, a.site, c.0, c.1);
        lemma_later(b.lamport, b.site, c.0, c.1);
        lemma_later_chain(a.lamport, a.site, b.lamport, b.site, c.0, c.1);
        lemma_later_chain(b.lamport, b.site, a.lamport, a.site, c.0, c.1);
        lemma_later_chain(a.lamport, a.site, c.0, c.1, b.lamport, b.site);
        lemma_later_chain(b.lamport, b.site, c.0, c.1, a.lamport, a.site);
    }
}

/// Merging converges: two operations leave the same state in either order, unless they write different
/// values to one field under one stamp.
pub proof fn law_merging_converges(c: CollectionView, a: OpView, b: OpView)
    requires
        !clash(a, b),
    ensures
        same_state(merged(merged(c, a), b), merged(merged(c, b), a)),
{
    let ab = merged(merged(c, a), b);
    let ba = merged(merged(c, b), a);
    assert forall|id: Seq<char>, field: Seq<char>| #[trigger] cell_of(ab, id, field) == cell_of(
        ba,
        id,
        field,
    ) by {
        lemma_after(c, a, id, field);
        lemma_after(c, b, id, field);
        lemma_after(merged(c, a), b, id, field);
        lemma_after(merged(c, b), a, id, field);
        if writes(a, id, field) && writes(b, id, field) {
            lemma_wins_commute(cell_of(c, id, field), a, b);
        }
    }
    assert forall|id: Seq<char>| #[trigger] tomb_of(ab, id) == tomb_of(ba, id) by {
        lemma_after(c, a, id, Seq::empty());
        lemma_after(c, b, id, Seq::empty());
        lemma_after(merged(c, a), b, id, Seq::empty());
        lemma_after(merged(c, b), a, id, Seq::empty());
        if buries(a, id) && buries(b, id) {
            lemma_tombs_commute(tomb_of(c, id), a, b);
        }
    }
}

/// Merging an operation again changes nothing.
pub proof fn law_merging_twice_is_once(c: CollectionView, a: OpView)
    ensures
        same_state(merged(merged(c, a), a), merged(c, a)),
{
    let once = merged(c, a);
    let twice = merged(once, a);
    lemma_later(a.lamport, a.site, a.lamport, a.site);
    assert forall|id: Seq<char>, field: Seq<char>| #[trigger] cell_of(twice, id, field) == cell_of(
        once,
        id,
        field,
    ) by {
        lemma_after(c, a, id, field);
        lemma_after(once, a, id, field);
    }
    assert forall|id: Seq<char>| #[trigger] tomb_of(twice, id) == tomb_of(once, id) by {
        lemma_after(c, a, id, Seq::empty());
        lemma_after(once, a, id, Seq::empty());
    }
}

/// Whether a collection shows a row with this id.
pub open spec fn present(c: CollectionView, id: Seq<char>) -> bool {
    match row_index(c.rows, c.rows.len() as int, id) {
        Some(i) => alive(c.rows[i]),
        None => false,
    }
}

proof fn lemma_any_later(cs: Seq<CellView>, n: int, l: nat, site: Seq<char>)
    requires
        n <= cs.len(),
    ensures
        any_later(cs, n, l, site) <==> exists|i: int|
            0 <= i < n && later((#[trigger] cs[i]).lamport, cs[i].site, l, site),
    decreases n,
{
    if n > 0 {
        lemma_any_later(cs, n - 1, l, site);
    }
}

proof fn lemma_row_stays_dead(row: RowView, op: OpView)
    requires
        row.tomb matches Some(t) && !later(op.lamport, op.site, t.0, t.1),
        !alive(row),
    ensures
        !alive(with_op(row, op)),
{
    let t = row.tomb->0;
    let cs = row.cells;
    let n = cs.len() as int;
    lemma_any_later(cs, n, t.0, t.1);
    let after = with_op(row, op).cells;
    lemma_cell_index(cs, n, op.field);
    lemma_any_later(after, after.len() as int, t.0, t.1);
    assert forall|i: int| 0 <= i < after.len() implies !later(
        (#[trigger] after[i]).lamport,
        after[i].site,
        t.0,
        t.1,
    ) by {
        if i < n && after[i] == cs[i] {
            assert(!later(cs[i].lamport, cs[i].site, t.0, t.1));
        } else {
            assert(after[i] == written(op));
        }
    }
}

proof fn lemma_row_index_same(a: Seq<RowView>, b: Seq<RowView>, n: int, id: Seq<char>)
    requires
        n <= a.len(),
        a.len() == b.len(),
        forall|j: int| 0 <= j < a.len() ==> (#[trigger] a[j]).id == b[j].id,
    ensures
        row_index(a, n, id) == row_index(b, n, id),
    decreases n,
{
    if n > 0 {
        lemma_row_index_same(a, b, n - 1, id);
    }
}

/// A late write, one whose stamp is not past the deletion's, cannot bring a deleted row back.
pub proof fn law_late_write_cannot_resurrect(c: CollectionView, op: OpView)
    requires
        tomb_of(c, op.id) matches Some(t) && !later(op.lamport, op.site, t.0, t.1),
        !present(c, op.id),
    ensures
        !present(merged(c, op), op.id),
{
    let n = c.rows.len() as int;
    lemma_row_index(c.rows, n, op.id);
    let i = row_index(c.rows, n, op.id)->0;
    if op.id.len() > 0 {
        let after = merged(c, op).rows;
        lemma_row_after(c.rows[i], op, op.field);
        lemma_row_stays_dead(c.rows[i], op);
        lemma_row_index_same(c.rows, after, n, op.id);
    }
}

/// A deletion that is as late as every write of its row takes the row away.
pub proof fn law_deletion_takes_the_row_away(c: CollectionView, op: OpView)
    requires
        op.id.len() > 0,
        op.kind == "del"@,
        row_index(c.rows, c.rows.len() as int, op.id) matches Some(i) ==> !any_later(
            c.rows[i].cells,
            c.rows[i].cells.len() as int,
            op.lamport,
            op.site,
        ),
    ensures
        !present(merged(c, op), op.id),
{
    let n = c.rows.len() as int;
    let after = merged(c, op).rows;
    reveal_strlit("set");
    reveal_strlit("del");
    assert("set"@[0] != "del"@[0]);
    lemma_row_index(c.rows, n, op.id);
    match row_index(c.rows, n, op.id) {
        Some(i) => {
            let row = c.rows[i];
            lemma_row_after(row, op, Seq::empty());
            lemma_row_index_same(c.rows, after, n, op.id);
            let cs = row.cells;
            let t = after[i].tomb->0;
            assert(after[i].cells == cs);
            lemma_any_later(cs, cs.len() as int, op.lamport, op.site);
            lemma_any_later(cs, cs.len() as int, t.0, t.1);
            assert forall|k: int| 0 <= k < cs.len() implies !later(
                (#[trigger] cs[k]).lamport,
                cs[k].site,
                t.0,
                t.1,
            ) by {
                lemma_later(op.lamport, op.site, t.0, t.1);
                lemma_later_chain(cs[k].lamport, cs[k].site, t.0, t.1, op.lamport, op.site);
            }
        },
        None => {
            assert(after =~= c.rows.push(with_op(empty_row(op.id), op)));
            lemma_row_index(after, n + 1, op.id);
            let m = row_index(after, n + 1, op.id)->0;
            assert(after[n].id == op.id);
            if m < n {
                assert(after[m] == c.rows[m]);
            }
        },
    }
}

/// Whether no two fields have one name.
pub open spec fn distinct_cells(cs: Seq<CellView>) -> bool {
    forall|i: int, j: int|
        0 <= i < j < cs.len() ==> (#[trigger] cs[i]).field != (#[trigger] cs[j]).field
}

/// Whether no two rows have one id, and no two fields of a row have one name.
pub open spec fn distinct_rows(rs: Seq<RowView>) -> bool {
    &&& forall|i: int, j: int| 0 <= i < j < rs.len() ==> (#[trigger] rs[i]).id != (#[trigger] rs[j]).id
    &&& forall|i: int| 0 <= i < rs.len() ==> distinct_cells((#[trigger] rs[i]).cells)
}

proof fn lemma_row_distinct(row: RowView, op: OpView)
    requires
        distinct_cells(row.cells),
    ensures
        distinct_cells(with_op(row, op).cells),
{
    lemma_cell_index(row.cells, row.cells.len() as int, op.field);
}

/// Merging keeps the rows and the fields of each row distinct.
pub proof fn law_merging_keeps_rows_distinct(c: CollectionView, op: OpView)
    requires
        distinct_rows(c.rows),
    ensures
        distinct_rows(merged(c, op).rows),
{
    let n = c.rows.len() as int;
    lemma_row_index(c.rows, n, op.id);
    if op.id.len() > 0 {
        match row_index(c.rows, n, op.id) {
            Some(i) => {
                lemma_row_distinct(c.rows[i], op);
                lemma_row_after(c.rows[i], op, op.field);
            },
            None => {
                lemma_row_distinct(empty_row(op.id), op);
                lemma_row_after(empty_row(op.id), op, op.field);
            },
        }
    }
}

/// A collection after a list of operations.
pub open spec fn merged_ops(c: CollectionView, ops: Seq<OpView>) -> CollectionView
    decreases ops.len(),
{
    if ops.len() == 0 {
        c
    } else {
        merged(merged_ops(c, ops.drop_last()), ops.last())
    }
}

/// The operations that JSON values tell.
pub open spec fn ops_of(
    js: Seq<JView>,
    nums: Map<Seq<char>, NumberView>,
    counts: Map<Seq<char>, u64>,
) -> Seq<OpView> {
    Seq::new(js.len(), |i: int| op_of(js[i], nums, counts))
}

/// The list of a request, empty where it has none.
pub open spec fn request_list(req: JView) -> Seq<JView> {
    match member(req, "ops"@) {
        Some(JView::Arr(ops)) => ops,
        _ => Seq::empty(),
    }
}

/// The operations of a request.
pub open spec fn request_ops(
    req: JView,
    nums: Map<Seq<char>, NumberView>,
    counts: Map<Seq<char>, u64>,
) -> Seq<OpView> {
    ops_of(request_list(req), nums, counts)
}

proof fn lemma_merged_all(
    c: CollectionView,
    js: Seq<JView>,
    n: int,
    nums: Map<Seq<char>, NumberView>,
    counts: Map<Seq<char>, u64>,
)
    requires
        0 <= n <= js.len(),
    ensures
        merged_all(c, js, n, nums, counts) == merged_ops(c, ops_of(js, nums, counts).take(n)),
    decreases n,
{
    let ops = ops_of(js, nums, counts);
    if n > 0 {
        lemma_merged_all(c, js, n - 1, nums, counts);
        assert(ops.take(n).drop_last() =~= ops.take(n - 1));
        assert(ops.take(n).last() == op_of(js[n - 1], nums, counts));
    }
}

proof fn lemma_request(
    c: CollectionView,
    req: JView,
    nums: Map<Seq<char>, NumberView>,
    counts: Map<Seq<char>, u64>,
)
    ensures
        after_request(c, req, nums, counts) == merged_ops(c, request_ops(req, nums, counts)),
{
    if let Some(JView::Arr(ops)) = member(req, "ops"@) {
        lemma_merged_all(c, ops, ops.len() as int, nums, counts);
        let all = ops_of(ops, nums, counts);
        assert(all.take(ops.len() as int) =~= all);
    } else {
        assert(merged_ops(c, request_ops(req, nums, counts)) == c);
    }
}

proof fn lemma_ops_distinct(c: CollectionView, ops: Seq<OpView>)
    requires
        distinct_rows(c.rows),
    ensures
        distinct_rows(merged_ops(c, ops).rows),
    decreases ops.len(),
{
    if ops.len() > 0 {
        lemma_ops_distinct(c, ops.drop_last());
        law_merging_keeps_rows_distinct(merged_ops(c, ops.drop_last()), ops.last());
    }
}

/// Whether a field is what it was, or a write of a list that is later than that, and no write of the
/// list is later than it.
spec fn is_last_write(
    x: Option<CellView>,
    before: Option<CellView>,
    ops: Seq<OpView>,
    id: Seq<char>,
    field: Seq<char>,
) -> bool {
    &&& x == before || exists|k: int|
        0 <= k < ops.len() && writes(#[trigger] ops[k], id, field) && x == Some(written(ops[k])) && (
        before matches Some(d) ==> later(ops[k].lamport, ops[k].site, d.lamport, d.site))
    &&& forall|k: int|
        0 <= k < ops.len() && writes(#[trigger] ops[k], id, field) ==> (x matches Some(y) && !later(
            ops[k].lamport,
            ops[k].site,
            y.lamport,
            y.site,
        ))
}

proof fn lemma_last_write(c: CollectionView, ops: Seq<OpView>, id: Seq<char>, field: Seq<char>)
    ensures
        is_last_write(
            cell_of(merged_ops(c, ops), id, field),
            cell_of(c, id, field),
            ops,
            id,
            field,
        ),
    decreases ops.len(),
{
    if ops.len() > 0 {
        let d = ops.drop_last();
        let m = merged_ops(c, d);
        let op = ops.last();
        lemma_last_write(c, d, id, field);
        lemma_after(m, op, id, field);
        let before = cell_of(c, id, field);
        let y = cell_of(m, id, field);
        let x = cell_of(merged_ops(c, ops), id, field);
        lemma_later(op.lamport, op.site, op.lamport, op.site);
        if x == y {
            if x != before {
                let k = choose|k: int|
                    0 <= k < d.len() && writes(#[trigger] d[k], id, field) && y == Some(
                        written(d[k]),
                    ) && (before matches Some(b) ==> later(
                        d[k].lamport,
                        d[k].site,
                        b.lamport,
                        b.site,
                    ));
                assert(ops[k] == d[k]);
                assert(writes(ops[k], id, field) && x == Some(written(ops[k])));
            }
        } else {
            assert(ops[ops.len() - 1] == op);
            assert(x == Some(written(op)));
            if let Some(b) = before {
                let z = y->0;
                lemma_later_chain(op.lamport, op.site, z.lamport, z.site, b.lamport, b.site);
            }
        }
        assert forall|k: int|
            0 <= k < ops.len() && writes(#[trigger] ops[k], id, field) implies (x matches Some(v)
            && !later(ops[k].lamport, ops[k].site, v.lamport, v.site)) by {
            let o = ops[k];
            if k < d.len() {
                assert(d[k] == o);
                let z = y->0;
                if x != y {
                    lemma_later_chain(o.lamport, o.site, op.lamport, op.site, z.lamport, z.site);
                }
            }
        }
    }
}

/// Whether a deletion is what it was, or one of a list that is later than that, and no deletion of the
/// list is later than it.
spec fn is_last_tomb(
    x: Option<(nat, Seq<char>)>,
    before: Option<(nat, Seq<char>)>,
    ops: Seq<OpView>,
    id: Seq<char>,
) -> bool {
    &&& x == before || exists|k: int|
        0 <= k < ops.len() && buries(#[trigger] ops[k], id) && x == Some(
            (ops[k].lamport, ops[k].site),
        ) && (before matches Some(d) ==> later(ops[k].lamport, ops[k].site, d.0, d.1))
    &&& forall|k: int|
        0 <= k < ops.len() && buries(#[trigger] ops[k], id) ==> (x matches Some(y) && !later(
            ops[k].lamport,
            ops[k].site,
            y.0,
            y.1,
        ))
}

proof fn lemma_last_tomb(c: CollectionView, ops: Seq<OpView>, id: Seq<char>)
    ensures
        is_last_tomb(tomb_of(merged_ops(c, ops), id), tomb_of(c, id), ops, id),
    decreases ops.len(),
{
    if ops.len() > 0 {
        let d = ops.drop_last();
        let m = merged_ops(c, d);
        let op = ops.last();
        lemma_last_tomb(c, d, id);
        lemma_after(m, op, id, Seq::empty());
        let before = tomb_of(c, id);
        let y = tomb_of(m, id);
        let x = tomb_of(merged_ops(c, ops), id);
        lemma_later(op.lamport, op.site, op.lamport, op.site);
        if x == y {
            if x != before {
                let k = choose|k: int|
                    0 <= k < d.len() && buries(#[trigger] d[k], id) && y == Some(
                        (d[k].lamport, d[k].site),
                    ) && (before matches Some(b) ==> later(d[k].lamport, d[k].site, b.0, b.1));
                assert(ops[k] == d[k]);
                assert(buries(ops[k], id) && x == Some((ops[k].lamport, ops[k].site)));
            }
        } else {
            assert(ops[ops.len() - 1] == op);
            assert(x == Some((op.lamport, op.site)));
            if let Some(b) = before {
                let z = y->0;
                lemma_later_chain(op.lamport, op.site, z.0, z.1, b.0, b.1);
            }
        }
        assert forall|k: int| 0 <= k < ops.len() && buries(#[trigger] ops[k], id) implies (
        x matches Some(v) && !later(ops[k].lamport, ops[k].site, v.0, v.1)) by {
            let o = ops[k];
            if k < d.len() {
                assert(d[k] == o);
                let z = y->0;
                if x != y {
                    lemma_later_chain(o.lamport, o.site, op.lamport, op.site, z.0, z.1);
                }
            }
        }
    }
}

proof fn lemma_last_lamport(c: CollectionView, ops: Seq<OpView>)
    ensures
        merged_ops(c, ops).lamport >= c.lamport,
        forall|k: int|
            0 <= k < ops.len() && (#[trigger] ops[k]).id.len() > 0 ==> merged_ops(c, ops).lamport
                >= ops[k].lamport,
        merged_ops(c, ops).lamport == c.lamport || exists|k: int|
            0 <= k < ops.len() && (#[trigger] ops[k]).id.len() > 0 && merged_ops(c, ops).lamport
                == ops[k].lamport,
    decreases ops.len(),
{
    if ops.len() > 0 {
        let d = ops.drop_last();
        lemma_last_lamport(c, d);
        let m = merged_ops(c, d);
        let r = merged_ops(c, ops);
        assert(ops[ops.len() - 1] == ops.last());
        assert forall|k: int| 0 <= k < ops.len() && (#[trigger] ops[k]).id.len() > 0 implies r.lamport
            >= ops[k].lamport by {
            if k < d.len() {
                assert(d[k] == ops[k]);
            }
        }
        if r.lamport == m.lamport && m.lamport != c.lamport {
            let k = choose|k: int|
                0 <= k < d.len() && (#[trigger] d[k]).id.len() > 0 && m.lamport == d[k].lamport;
            assert(ops[k] == d[k]);
        }
    }
}

/// Whether every operation of a list is in another.
spec fn all_in(a: Seq<OpView>, b: Seq<OpView>) -> bool {
    forall|k: int| 0 <= k < a.len() ==> b.contains(#[trigger] a[k])
}

/// Whether no two operations of a list are two different writes of one field under one stamp.
pub open spec fn no_clash(ops: Seq<OpView>) -> bool {
    forall|i: int, j: int|
        0 <= i < ops.len() && 0 <= j < ops.len() ==> !clash(#[trigger] ops[i], #[trigger] ops[j])
}

proof fn lemma_one_last_write(
    x: Option<CellView>,
    y: Option<CellView>,
    before: Option<CellView>,
    a: Seq<OpView>,
    b: Seq<OpView>,
    id: Seq<char>,
    field: Seq<char>,
)
    requires
        is_last_write(x, before, a, id, field),
        is_last_write(y, before, b, id, field),
        all_in(a, b),
        all_in(b, a),
        no_clash(a),
    ensures
        x == y,
{
    if x != before {
        let k = choose|k: int|
            0 <= k < a.len() && writes(#[trigger] a[k], id, field) && x == Some(written(a[k])) && (
            before matches Some(d) ==> later(a[k].lamport, a[k].site, d.lamport, d.site));
        assert(b.contains(a[k]));
        let m = choose|m: int| 0 <= m < b.len() && b[m] == a[k];
        assert(writes(b[m], id, field));
        if y != before {
            let q = choose|q: int|
                0 <= q < b.len() && writes(#[trigger] b[q], id, field) && y == Some(written(b[q]))
                    && (before matches Some(d) ==> later(
                    b[q].lamport,
                    b[q].site,
                    d.lamport,
                    d.site,
                ));
            assert(a.contains(b[q]));
            let p = choose|p: int| 0 <= p < a.len() && a[p] == b[q];
            assert(writes(a[p], id, field));
            lemma_later(a[k].lamport, a[k].site, b[q].lamport, b[q].site);
            assert(!clash(a[k], a[p]));
        }
    } else if y != before {
        let q = choose|q: int|
            0 <= q < b.len() && writes(#[trigger] b[q], id, field) && y == Some(written(b[q])) && (
            before matches Some(d) ==> later(b[q].lamport, b[q].site, d.lamport, d.site));
        assert(a.contains(b[q]));
        let p = choose|p: int| 0 <= p < a.len() && a[p] == b[q];
        assert(writes(a[p], id, field));
    }
}

proof fn lemma_one_last_tomb(
    x: Option<(nat, Seq<char>)>,
    y: Option<(nat, Seq<char>)>,
    before: Option<(nat, Seq<char>)>,
    a: Seq<OpView>,
    b: Seq<OpView>,
    id: Seq<char>,
)
    requires
        is_last_tomb(x, before, a, id),
        is_last_tomb(y, before, b, id),
        all_in(a, b),
        all_in(b, a),
    ensures
        x == y,
{
    if x != before {
        let k = choose|k: int|
            0 <= k < a.len() && buries(#[trigger] a[k], id) && x == Some((a[k].lamport, a[k].site))
                && (before matches Some(d) ==> later(a[k].lamport, a[k].site, d.0, d.1));
        assert(b.contains(a[k]));
        let m = choose|m: int| 0 <= m < b.len() && b[m] == a[k];
        assert(buries(b[m], id));
        if y != before {
            let q = choose|q: int|
                0 <= q < b.len() && buries(#[trigger] b[q], id) && y == Some(
                    (b[q].lamport, b[q].site),
                ) && (before matches Some(d) ==> later(b[q].lamport, b[q].site, d.0, d.1));
            assert(a.contains(b[q]));
            let p = choose|p: int| 0 <= p < a.len() && a[p] == b[q];
            assert(buries(a[p], id));
            lemma_later(a[k].lamport, a[k].site, b[q].lamport, b[q].site);
        }
    } else if y != before {
        let q = choose|q: int|
            0 <= q < b.len() && buries(#[trigger] b[q], id) && y == Some((b[q].lamport, b[q].site))
                && (before matches Some(d) ==> later(b[q].lamport, b[q].site, d.0, d.1));
        assert(a.contains(b[q]));
        let p = choose|p: int| 0 <= p < a.len() && a[p] == b[q];
        assert(buries(a[p], id));
    }
}

proof fn lemma_lamport_most(c: CollectionView, a: Seq<OpView>, b: Seq<OpView>)
    requires
        all_in(a, b),
    ensures
        merged_ops(c, a).lamport <= merged_ops(c, b).lamport,
{
    lemma_last_lamport(c, a);
    lemma_last_lamport(c, b);
    if merged_ops(c, a).lamport != c.lamport {
        let k = choose|k: int|
            0 <= k < a.len() && (#[trigger] a[k]).id.len() > 0 && merged_ops(c, a).lamport
                == a[k].lamport;
        assert(b.contains(a[k]));
        let m = choose|m: int| 0 <= m < b.len() && b[m] == a[k];
        assert(b[m].id.len() > 0);
    }
}

proof fn lemma_ops_converge(c: CollectionView, a: Seq<OpView>, b: Seq<OpView>)
    requires
        all_in(a, b),
        all_in(b, a),
        no_clash(a),
    ensures
        same_state(merged_ops(c, a), merged_ops(c, b)),
{
    let x = merged_ops(c, a);
    let y = merged_ops(c, b);
    lemma_lamport_most(c, a, b);
    lemma_lamport_most(c, b, a);
    assert forall|id: Seq<char>, field: Seq<char>| #[trigger] cell_of(x, id, field) == cell_of(
        y,
        id,
        field,
    ) by {
        lemma_last_write(c, a, id, field);
        lemma_last_write(c, b, id, field);
        lemma_one_last_write(
            cell_of(x, id, field),
            cell_of(y, id, field),
            cell_of(c, id, field),
            a,
            b,
            id,
            field,
        );
    }
    assert forall|id: Seq<char>| #[trigger] tomb_of(x, id) == tomb_of(y, id) by {
        lemma_last_tomb(c, a, id);
        lemma_last_tomb(c, b, id);
        lemma_one_last_tomb(tomb_of(x, id), tomb_of(y, id), tomb_of(c, id), a, b, id);
    }
}

/// The sum of what a function gives for each item of a list.
spec fn total<T>(xs: Seq<T>, f: spec_fn(T) -> Multiset<Seq<char>>) -> Multiset<Seq<char>>
    decreases xs.len(),
{
    if xs.len() == 0 {
        Multiset::empty()
    } else {
        total(xs.drop_last(), f).add(f(xs.last()))
    }
}

proof fn lemma_total_remove<T>(xs: Seq<T>, k: int, f: spec_fn(T) -> Multiset<Seq<char>>)
    requires
        0 <= k < xs.len(),
    ensures
        total(xs, f) == total(xs.remove(k), f).add(f(xs[k])),
    decreases xs.len(),
{
    broadcast use vstd::multiset::group_multiset_axioms;

    if k == xs.len() - 1 {
        assert(xs.remove(k) =~= xs.drop_last());
    } else {
        let d = xs.drop_last();
        lemma_total_remove(d, k, f);
        assert(xs.remove(k).drop_last() =~= d.remove(k));
        assert(xs.remove(k).last() == xs.last());
        assert(total(xs, f) =~= total(xs.remove(k), f).add(f(xs[k])));
    }
}

proof fn lemma_total_same<T>(a: Seq<T>, b: Seq<T>, f: spec_fn(T) -> Multiset<Seq<char>>)
    requires
        a.to_multiset() == b.to_multiset(),
    ensures
        total(a, f) == total(b, f),
    decreases a.len(),
{
    broadcast use vstd::seq_lib::group_to_multiset_ensures;

    if a.len() > 0 {
        let n = a.len() - 1;
        let x = a[n];
        assert(a.contains(x));
        assert(a.to_multiset().count(x) > 0);
        assert(b.contains(x));
        let k = choose|k: int| 0 <= k < b.len() && b[k] == x;
        assert(a.remove(n) =~= a.drop_last());
        assert(a.remove(n).to_multiset() == a.to_multiset().remove(x));
        assert(b.remove(k).to_multiset() == b.to_multiset().remove(x));
        lemma_total_same(a.drop_last(), b.remove(k), f);
        lemma_total_remove(b, k, f);
    } else {
        assert(b.len() == b.to_multiset().len());
        assert(a.len() == a.to_multiset().len());
    }
}

spec fn cell_weight(id: Seq<char>) -> spec_fn(CellView) -> Multiset<Seq<char>> {
    |c: CellView| Multiset::<Seq<char>>::singleton(set_text(id, c))
}

spec fn row_weight() -> spec_fn(RowView) -> Multiset<Seq<char>> {
    |r: RowView| row_texts(r).to_multiset()
}

proof fn lemma_sets_total(id: Seq<char>, cs: Seq<CellView>, n: int)
    requires
        0 <= n <= cs.len(),
    ensures
        set_texts(id, cs, n).to_multiset() == total(cs.take(n), cell_weight(id)),
    decreases n,
{
    broadcast use {vstd::seq_lib::group_to_multiset_ensures, vstd::multiset::group_multiset_axioms};

    if n > 0 {
        lemma_sets_total(id, cs, n - 1);
        assert(cs.take(n).drop_last() =~= cs.take(n - 1));
        assert(cs.take(n).last() == cs[n - 1]);
        assert(set_texts(id, cs, n).to_multiset() =~= total(cs.take(n), cell_weight(id)));
    } else {
        assert(set_texts(id, cs, 0).to_multiset() =~= Multiset::<Seq<char>>::empty());
    }
}

proof fn lemma_told_total(rs: Seq<RowView>, n: int)
    requires
        0 <= n <= rs.len(),
    ensures
        told(rs, n).to_multiset() == total(rs.take(n), row_weight()),
    decreases n,
{
    broadcast use {vstd::seq_lib::group_to_multiset_ensures, vstd::multiset::group_multiset_axioms};

    if n > 0 {
        lemma_told_total(rs, n - 1);
        assert(rs.take(n).drop_last() =~= rs.take(n - 1));
        assert(rs.take(n).last() == rs[n - 1]);
        vstd::seq_lib::lemma_multiset_commutative(told(rs, n - 1), row_texts(rs[n - 1]));
    } else {
        assert(told(rs, 0).to_multiset() =~= Multiset::<Seq<char>>::empty());
    }
}

/// Whether two rows hold the same, their fields in any order.
spec fn same_row(x: RowView, y: RowView) -> bool {
    &&& x.id == y.id
    &&& x.tomb == y.tomb
    &&& x.cells.to_multiset() == y.cells.to_multiset()
}

/// Whether nothing is known of a row.
spec fn quiet(r: RowView) -> bool {
    r.cells.len() == 0 && r.tomb is None
}

proof fn lemma_same_alive(x: RowView, y: RowView)
    requires
        same_row(x, y),
        alive(x),
    ensures
        alive(y),
{
    broadcast use vstd::seq_lib::group_to_multiset_ensures;

    assert(x.cells.len() == x.cells.to_multiset().len());
    assert(y.cells.len() == y.cells.to_multiset().len());
    if let Some(t) = x.tomb {
        lemma_any_later(x.cells, x.cells.len() as int, t.0, t.1);
        lemma_any_later(y.cells, y.cells.len() as int, t.0, t.1);
        let i = choose|i: int|
            0 <= i < x.cells.len() && later((#[trigger] x.cells[i]).lamport, x.cells[i].site, t.0, t.1);
        assert(x.cells.contains(x.cells[i]));
        assert(x.cells.to_multiset().count(x.cells[i]) > 0);
        assert(y.cells.contains(x.cells[i]));
        let j = choose|j: int| 0 <= j < y.cells.len() && y.cells[j] == x.cells[i];
        assert(later(y.cells[j].lamport, y.cells[j].site, t.0, t.1));
    }
}

proof fn lemma_same_row_told(x: RowView, y: RowView)
    requires
        same_row(x, y),
    ensures
        row_weight()(x) == row_weight()(y),
{
    if alive(x) {
        lemma_same_alive(x, y);
    }
    if alive(y) {
        lemma_same_alive(y, x);
    }
    lemma_sets_total(x.id, x.cells, x.cells.len() as int);
    lemma_sets_total(y.id, y.cells, y.cells.len() as int);
    assert(x.cells.take(x.cells.len() as int) =~= x.cells);
    assert(y.cells.take(y.cells.len() as int) =~= y.cells);
    lemma_total_same(x.cells, y.cells, cell_weight(x.id));
}

proof fn lemma_quiet_told(r: RowView)
    requires
        quiet(r),
    ensures
        row_weight()(r) == Multiset::<Seq<char>>::empty(),
{
    broadcast use {vstd::seq_lib::group_to_multiset_ensures, vstd::multiset::group_multiset_axioms};

    assert(row_texts(r) =~= Seq::<Seq<char>>::empty());
    assert(row_texts(r).to_multiset() =~= Multiset::<Seq<char>>::empty());
}

/// Whether each row of a list is quiet or stands in the other list too.
spec fn rows_match(a: Seq<RowView>, b: Seq<RowView>) -> bool {
    forall|i: int|
        0 <= i < a.len() ==> quiet(#[trigger] a[i]) || exists|j: int|
            0 <= j < b.len() && same_row(a[i], #[trigger] b[j])
}

spec fn ids_distinct(rs: Seq<RowView>) -> bool {
    forall|i: int, j: int| 0 <= i < j < rs.len() ==> (#[trigger] rs[i]).id != (#[trigger] rs[j]).id
}

proof fn lemma_all_quiet(rs: Seq<RowView>)
    requires
        forall|i: int| 0 <= i < rs.len() ==> quiet(#[trigger] rs[i]),
    ensures
        total(rs, row_weight()) == Multiset::<Seq<char>>::empty(),
    decreases rs.len(),
{
    broadcast use vstd::multiset::group_multiset_axioms;

    if rs.len() > 0 {
        let d = rs.drop_last();
        assert forall|i: int| 0 <= i < d.len() implies quiet(#[trigger] d[i]) by {
            assert(d[i] == rs[i]);
        }
        lemma_all_quiet(d);
        assert(quiet(rs[rs.len() - 1]));
        lemma_quiet_told(rs.last());
        assert(total(rs, row_weight()) =~= Multiset::<Seq<char>>::empty());
    }
}

/// The rows of a list but for its last, and those of another but for one that holds the same.
proof fn lemma_match_less(a: Seq<RowView>, b: Seq<RowView>, k: int)
    requires
        a.len() > 0,
        0 <= k < b.len(),
        same_row(a.last(), b[k]),
        ids_distinct(a),
        ids_distinct(b),
        rows_match(a, b),
        rows_match(b, a),
    ensures
        ids_distinct(a.drop_last()),
        ids_distinct(b.remove(k)),
        rows_match(a.drop_last(), b.remove(k)),
        rows_match(b.remove(k), a.drop_last()),
{
    let d = a.drop_last();
    let e = b.remove(k);
    let n = a.len() - 1;
    assert forall|i: int| 0 <= i < d.len() implies quiet(#[trigger] d[i]) || exists|j: int|
        0 <= j < e.len() && same_row(d[i], #[trigger] e[j]) by {
        assert(d[i] == a[i]);
        if !quiet(a[i]) {
            let j = choose|j: int| 0 <= j < b.len() && same_row(a[i], #[trigger] b[j]);
            assert(a[i].id != a[n].id);
            if j < k {
                assert(e[j] == b[j]);
            } else {
                assert(e[j - 1] == b[j]);
            }
        }
    }
    assert forall|j: int| 0 <= j < e.len() implies quiet(#[trigger] e[j]) || exists|i: int|
        0 <= i < d.len() && same_row(e[j], #[trigger] d[i]) by {
        let m = if j < k {
            j
        } else {
            j + 1
        };
        assert(e[j] == b[m]);
        if !quiet(b[m]) {
            let i = choose|i: int| 0 <= i < a.len() && same_row(b[m], #[trigger] a[i]);
            if m < k {
                assert(b[m].id != b[k].id);
            } else {
                assert(b[k].id != b[m].id);
            }
            assert(i < n);
            assert(d[i] == a[i]);
        }
    }
    assert forall|i: int, j: int| 0 <= i < j < e.len() implies (#[trigger] e[i]).id != (
    #[trigger] e[j]).id by {
        let p = if i < k {
            i
        } else {
            i + 1
        };
        let q = if j < k {
            j
        } else {
            j + 1
        };
        assert(e[i] == b[p] && e[j] == b[q]);
    }
}

proof fn lemma_match_told(a: Seq<RowView>, b: Seq<RowView>)
    requires
        ids_distinct(a),
        ids_distinct(b),
        rows_match(a, b),
        rows_match(b, a),
    ensures
        total(a, row_weight()) == total(b, row_weight()),
    decreases a.len(),
{
    broadcast use vstd::multiset::group_multiset_axioms;

    if a.len() == 0 {
        lemma_all_quiet(b);
    } else {
        let n = a.len() - 1;
        let x = a[n];
        if exists|k: int| 0 <= k < b.len() && same_row(x, #[trigger] b[k]) {
            let k = choose|k: int| 0 <= k < b.len() && same_row(x, #[trigger] b[k]);
            lemma_match_less(a, b, k);
            lemma_match_told(a.drop_last(), b.remove(k));
            lemma_total_remove(b, k, row_weight());
            lemma_same_row_told(x, b[k]);
        } else {
            let d = a.drop_last();
            assert(quiet(x));
            lemma_quiet_told(x);
            assert(rows_match(d, b)) by {
                assert forall|i: int| 0 <= i < d.len() implies quiet(#[trigger] d[i]) || exists|
                    j: int,
                |
                    0 <= j < b.len() && same_row(d[i], #[trigger] b[j]) by {
                    assert(d[i] == a[i]);
                }
            }
            assert(rows_match(b, d)) by {
                assert forall|j: int| 0 <= j < b.len() implies quiet(#[trigger] b[j]) || exists|
                    i: int,
                |
                    0 <= i < d.len() && same_row(b[j], #[trigger] d[i]) by {
                    if !quiet(b[j]) {
                        let i = choose|i: int| 0 <= i < a.len() && same_row(b[j], #[trigger] a[i]);
                        if i == n {
                            assert(same_row(x, b[j]));
                        }
                        assert(d[i] == a[i]);
                    }
                }
            }
            lemma_match_told(d, b);
            assert(total(a, row_weight()) =~= total(b, row_weight()));
        }
    }
}

proof fn lemma_own_row(rs: Seq<RowView>, i: int)
    requires
        ids_distinct(rs),
        0 <= i < rs.len(),
    ensures
        row_index(rs, rs.len() as int, rs[i].id) == Some(i),
{
    lemma_row_index(rs, rs.len() as int, rs[i].id);
    if let Some(k) = row_index(rs, rs.len() as int, rs[i].id) {
        if k < i {
            assert(rs[k].id != rs[i].id);
        } else if k > i {
            assert(rs[i].id != rs[k].id);
        }
    }
}

proof fn lemma_own_cell(cs: Seq<CellView>, i: int)
    requires
        distinct_cells(cs),
        0 <= i < cs.len(),
    ensures
        cell_index(cs, cs.len() as int, cs[i].field) == Some(i),
{
    lemma_cell_index(cs, cs.len() as int, cs[i].field);
    if let Some(k) = cell_index(cs, cs.len() as int, cs[i].field) {
        if k < i {
            assert(cs[k].field != cs[i].field);
        } else if k > i {
            assert(cs[i].field != cs[k].field);
        }
    }
}

proof fn lemma_same_cells(x: RowView, y: RowView)
    requires
        distinct_cells(x.cells),
        distinct_cells(y.cells),
        forall|f: Seq<char>| #[trigger] row_cell(x, f) == row_cell(y, f),
    ensures
        x.cells.to_multiset() == y.cells.to_multiset(),
{
    broadcast use {vstd::seq_lib::group_to_multiset_ensures, vstd::multiset::group_multiset_axioms};

    let a = x.cells;
    let b = y.cells;
    assert(a.no_duplicates());
    assert(b.no_duplicates());
    a.lemma_multiset_has_no_duplicates();
    b.lemma_multiset_has_no_duplicates();
    assert forall|c: CellView| a.contains(c) == b.contains(c) by {
        if a.contains(c) {
            let i = choose|i: int| 0 <= i < a.len() && a[i] == c;
            lemma_own_cell(a, i);
            assert(row_cell(x, c.field) == Some(c));
            assert(row_cell(y, c.field) == Some(c));
            lemma_cell_index(b, b.len() as int, c.field);
        }
        if b.contains(c) {
            let i = choose|i: int| 0 <= i < b.len() && b[i] == c;
            lemma_own_cell(b, i);
            assert(row_cell(y, c.field) == Some(c));
            assert(row_cell(x, c.field) == Some(c));
            lemma_cell_index(a, a.len() as int, c.field);
        }
    }
    assert forall|c: CellView| a.to_multiset().count(c) == b.to_multiset().count(c) by {
        assert(a.contains(c) == b.contains(c));
    }
    assert(a.to_multiset() =~= b.to_multiset());
}

proof fn lemma_state_rows(a: CollectionView, b: CollectionView)
    requires
        same_state(a, b),
        distinct_rows(a.rows),
        distinct_rows(b.rows),
    ensures
        rows_match(a.rows, b.rows),
{
    let ra = a.rows;
    let rb = b.rows;
    assert forall|i: int| 0 <= i < ra.len() implies quiet(#[trigger] ra[i]) || exists|j: int|
        0 <= j < rb.len() && same_row(ra[i], #[trigger] rb[j]) by {
        let x = ra[i];
        lemma_own_row(ra, i);
        lemma_row_index(rb, rb.len() as int, x.id);
        assert(tomb_of(a, x.id) == tomb_of(b, x.id));
        match row_index(rb, rb.len() as int, x.id) {
            Some(j) => {
                let y = rb[j];
                assert forall|f: Seq<char>| #[trigger] row_cell(x, f) == row_cell(y, f) by {
                    assert(cell_of(a, x.id, f) == cell_of(b, x.id, f));
                }
                lemma_same_cells(x, y);
                assert(same_row(ra[i], rb[j]));
            },
            None => {
                if x.cells.len() > 0 {
                    let f = x.cells[0].field;
                    lemma_own_cell(x.cells, 0);
                    assert(cell_of(a, x.id, f) == cell_of(b, x.id, f));
                }
            },
        }
    }
}

/// Collections that hold the same are answered alike.
pub proof fn law_same_state_is_answered_alike(a: CollectionView, b: CollectionView)
    requires
        same_state(a, b),
        distinct_rows(a.rows),
        distinct_rows(b.rows),
    ensures
        state_text(a) == state_text(b),
{
    lemma_state_rows(a, b);
    lemma_state_rows(b, a);
    lemma_match_told(a.rows, b.rows);
    lemma_told_total(a.rows, a.rows.len() as int);
    lemma_told_total(b.rows, b.rows.len() as int);
    assert(a.rows.take(a.rows.len() as int) =~= a.rows);
    assert(b.rows.take(b.rows.len() as int) =~= b.rows);
    crate::order::law_sorting_forgets_the_order(
        told(a.rows, a.rows.len() as int),
        told(b.rows, b.rows.len() as int),
    );
}

/// Every operation of a list is one of another list that holds the same.
proof fn lemma_same_lists(
    a: Seq<JView>,
    b: Seq<JView>,
    nums: Map<Seq<char>, NumberView>,
    counts: Map<Seq<char>, u64>,
)
    requires
        a.to_multiset() == b.to_multiset(),
    ensures
        all_in(ops_of(a, nums, counts), ops_of(b, nums, counts)),
{
    broadcast use vstd::seq_lib::group_to_multiset_ensures;

    let x = ops_of(a, nums, counts);
    let y = ops_of(b, nums, counts);
    assert forall|k: int| 0 <= k < x.len() implies y.contains(#[trigger] x[k]) by {
        assert(a.contains(a[k]));
        assert(a.to_multiset().count(a[k]) > 0);
        assert(b.contains(a[k]));
        let m = choose|m: int| 0 <= m < b.len() && b[m] == a[k];
        assert(y[m] == x[k]);
    }
}

/// Replicas converge: two requests that hold the same operations, in whatever order, leave the same
/// state and get the same answer, unless two of the operations write different values to one field
/// under one stamp.
pub proof fn law_replicas_converge(
    c: CollectionView,
    a: JView,
    b: JView,
    nums: Map<Seq<char>, NumberView>,
    counts: Map<Seq<char>, u64>,
)
    requires
        distinct_rows(c.rows),
        request_list(a).to_multiset() == request_list(b).to_multiset(),
        no_clash(request_ops(a, nums, counts)),
    ensures
        same_state(after_request(c, a, nums, counts), after_request(c, b, nums, counts)),
        state_text(after_request(c, a, nums, counts)) == state_text(
            after_request(c, b, nums, counts),
        ),
{
    let x = request_ops(a, nums, counts);
    let y = request_ops(b, nums, counts);
    lemma_request(c, a, nums, counts);
    lemma_request(c, b, nums, counts);
    lemma_same_lists(request_list(a), request_list(b), nums, counts);
    lemma_same_lists(request_list(b), request_list(a), nums, counts);
    lemma_ops_converge(c, x, y);
    lemma_ops_distinct(c, x);
    lemma_ops_distinct(c, y);
    law_same_state_is_answered_alike(merged_ops(c, x), merged_ops(c, y));
}

/// Whether a collection has taken an operation in: another merge of it cannot change anything.
spec fn taken(c: CollectionView, op: OpView) -> bool {
    op.id.len() == 0 || {
        &&& c.lamport >= op.lamport
        &&& row_index(c.rows, c.rows.len() as int, op.id) is Some
        &&& op.kind == "set"@ && op.field.len() > 0 ==> (cell_of(c, op.id, op.field) matches Some(x)
            && !later(op.lamport, op.site, x.lamport, x.site))
        &&& op.kind == "del"@ ==> (tomb_of(c, op.id) matches Some(t) && !later(
            op.lamport,
            op.site,
            t.0,
            t.1,
        ))
    }
}

proof fn lemma_taken_is_kept(c: CollectionView, op: OpView)
    requires
        taken(c, op),
    ensures
        merged(c, op) == c,
{
    let n = c.rows.len() as int;
    lemma_row_index(c.rows, n, op.id);
    if op.id.len() > 0 {
        let i = row_index(c.rows, n, op.id)->0;
        lemma_cell_index(c.rows[i].cells, c.rows[i].cells.len() as int, op.field);
        assert(with_op(c.rows[i], op) == c.rows[i]);
        assert(c.rows.update(i, c.rows[i]) =~= c.rows);
    }
}

proof fn lemma_row_stays(c: CollectionView, op: OpView, id: Seq<char>)
    ensures
        row_index(c.rows, c.rows.len() as int, id) is Some ==> row_index(
            merged(c, op).rows,
            merged(c, op).rows.len() as int,
            id,
        ) is Some,
        op.id.len() > 0 ==> row_index(
            merged(c, op).rows,
            merged(c, op).rows.len() as int,
            op.id,
        ) is Some,
{
    let n = c.rows.len() as int;
    let after = merged(c, op).rows;
    lemma_row_index(c.rows, n, op.id);
    lemma_row_index(c.rows, n, id);
    lemma_row_index(after, after.len() as int, id);
    lemma_row_index(after, after.len() as int, op.id);
    if op.id.len() > 0 {
        match row_index(c.rows, n, op.id) {
            Some(i) => {
                lemma_row_after(c.rows[i], op, op.field);
                assert(after[i].id == op.id);
            },
            None => {
                lemma_row_after(empty_row(op.id), op, op.field);
                assert(after[n].id == op.id);
            },
        }
        if let Some(k) = row_index(c.rows, n, id) {
            assert(after[k].id == id);
        }
    }
}

proof fn lemma_taken_after(c: CollectionView, op: OpView)
    ensures
        taken(merged(c, op), op),
{
    lemma_row_stays(c, op, op.id);
    lemma_after(c, op, op.id, op.field);
    lemma_later(op.lamport, op.site, op.lamport, op.site);
}

proof fn lemma_taken_stays(c: CollectionView, a: OpView, b: OpView)
    requires
        taken(c, a),
    ensures
        taken(merged(c, b), a),
{
    lemma_row_stays(c, b, a.id);
    lemma_after(c, b, a.id, a.field);
    if let Some(x) = cell_of(c, a.id, a.field) {
        lemma_later_chain(a.lamport, a.site, b.lamport, b.site, x.lamport, x.site);
    }
    if let Some(t) = tomb_of(c, a.id) {
        lemma_later_chain(a.lamport, a.site, b.lamport, b.site, t.0, t.1);
    }
}

proof fn lemma_all_taken(c: CollectionView, ops: Seq<OpView>, k: int)
    requires
        0 <= k < ops.len(),
    ensures
        taken(merged_ops(c, ops), ops[k]),
    decreases ops.len(),
{
    let m = merged_ops(c, ops.drop_last());
    if k == ops.len() - 1 {
        lemma_taken_after(m, ops.last());
    } else {
        lemma_all_taken(c, ops.drop_last(), k);
        lemma_taken_stays(m, ops[k], ops.last());
    }
}

proof fn lemma_taken_ops(c: CollectionView, ops: Seq<OpView>)
    requires
        forall|k: int| 0 <= k < ops.len() ==> taken(c, #[trigger] ops[k]),
    ensures
        merged_ops(c, ops) == c,
    decreases ops.len(),
{
    if ops.len() > 0 {
        let d = ops.drop_last();
        assert forall|k: int| 0 <= k < d.len() implies taken(c, #[trigger] d[k]) by {
            assert(d[k] == ops[k]);
        }
        lemma_taken_ops(c, d);
        assert(taken(c, ops[ops.len() - 1]));
        lemma_taken_is_kept(c, ops.last());
    }
}

/// Sending a request again changes nothing: the collection stays as it is, and the answer is the same.
pub proof fn law_sending_again_changes_nothing(
    c: CollectionView,
    req: JView,
    nums: Map<Seq<char>, NumberView>,
    counts: Map<Seq<char>, u64>,
)
    ensures
        after_request(after_request(c, req, nums, counts), req, nums, counts) == after_request(
            c,
            req,
            nums,
            counts,
        ),
{
    let ops = request_ops(req, nums, counts);
    lemma_request(c, req, nums, counts);
    let m = merged_ops(c, ops);
    lemma_request(m, req, nums, counts);
    assert forall|k: int| 0 <= k < ops.len() implies taken(m, #[trigger] ops[k]) by {
        lemma_all_taken(c, ops, k);
    }
    lemma_taken_ops(m, ops);
}

} // verus!
