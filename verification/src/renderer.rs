//! What the template environment borrows from the library: the shared
//! counter registry, the value-reshaping filters, the per-template row
//! plan, and the spacing normalization applied to rendered text. The
//! template dialect itself is not reimplemented here; its environment
//! calls back into these functions.

use vstd::prelude::*;

use crate::cells::CtxValue;
use crate::table::{
    spec_assoc_find, spec_assoc_get, spec_assoc_insert, spec_keep, spec_opt_set_view,
    spec_unique_keys, KeySet, Row, RowTable, lemma_assoc_find_props, lemma_assoc_insert_unique,
    lemma_assoc_find_at, lemma_assoc_find_none,
};
use crate::text::{str_eq, string_from_chars, spec_trim_end, trim_end_str};

verus! {

/// Why a filter or counter call failed.
#[derive(Debug)]
pub enum RenderError {
    /// A bitmask input that is not a sequence of non-negative integers.
    BadBitmaskInput,
    /// A bitmask position beyond the mask size.
    BitTooLarge,
    /// An unpack input that is neither a row, a table nor a list of rows.
    CannotUnpack,
    /// A counter that already exists was created again.
    CounterExists(String),
    /// A counter that does not exist was incremented.
    CounterNotFound(String),
}

impl RenderError {
    /// The human-readable report of this failure.
    pub fn message(&self) -> (r: String)
        ensures
            self is BadBitmaskInput ==> r@
                == "input value must be a sequence of integers or an integer"@,
            self is BitTooLarge ==> r@ == "value is larger than mask size"@,
            self is CannotUnpack ==> r@
                == "input is not a list of maps (source) or map (source row)"@,
            self matches RenderError::CounterExists(n) ==> r@ == "Counter '"@ + n@
                + "' already exists"@,
            self matches RenderError::CounterNotFound(n) ==> r@ == "Counter '"@ + n@
                + "' not found"@,
    {
        match self {
            RenderError::BadBitmaskInput => {
                "input value must be a sequence of integers or an integer".to_owned()
            },
            RenderError::BitTooLarge => "value is larger than mask size".to_owned(),
            RenderError::CannotUnpack => {
                "input is not a list of maps (source) or map (source row)".to_owned()
            },
            RenderError::CounterExists(n) => {
                let mut m = "Counter '".to_owned();
                m.append(n.as_str());
                m.append("' already exists");
                m
            },
            RenderError::CounterNotFound(n) => {
                let mut m = "Counter '".to_owned();
                m.append(n.as_str());
                m.append("' not found");
                m
            },
        }
    }
}

/// The named counters one build shares: created once from configuration,
/// bumped by every counter call a template makes.
#[derive(Debug)]
pub struct CounterMap {
    counters: Vec<(String, i32)>,
}

impl View for CounterMap {
    type V = Seq<(Seq<char>, i32)>;

    closed spec fn view(&self) -> Seq<(Seq<char>, i32)> {
        self.counters@.map_values(|p: (String, i32)| (p.0@, p.1))
    }
}

impl CounterMap {
    /// Counter names never repeat.
    pub open spec fn well_formed(&self) -> bool {
        spec_unique_keys(self@)
    }

    pub fn new() -> (r: CounterMap)
        ensures
            r@ == Seq::<(Seq<char>, i32)>::empty(),
            r.well_formed(),
    {
        let r = CounterMap { counters: Vec::new() };
        proof {
            assert(r@ =~= Seq::<(Seq<char>, i32)>::empty());
        }
        r
    }

    fn find(&self, name: &str) -> (r: Option<usize>)
        ensures
            match r {
                Some(i) => spec_assoc_find(self@, name@) == Some(i as int),
                None => spec_assoc_find(self@, name@) is None,
            },
    {
        let n = self.counters.len();
        let mut i: usize = 0;
        while i < n
            invariant
                i <= n,
                n == self@.len(),
                forall|j: int| 0 <= j < i ==> self@[j].0 != name@,
            decreases n - i,
        {
            if str_eq(self.counters[i].0.as_str(), name) {
                proof {
                    lemma_assoc_find_at(self@, name@, i as int);
                }
                return Some(i);
            }
            i = i + 1;
        }
        proof {
            lemma_assoc_find_none(self@, name@);
        }
        None
    }

    /// The current value of a counter, if it exists.
    pub fn get(&self, name: &str) -> (r: Option<i32>)
        ensures
            r == spec_assoc_get(self@, name@),
    {
        match self.find(name) {
            Some(i) => {
                proof {
                    lemma_assoc_find_props(self@, name@);
                }
                Some(self.counters[i].1)
            },
            None => None,
        }
    }

    /// Creates a counter with `init_val` (default 0); creating a name
    /// twice replaces the value and reports the duplicate.
    pub fn create(&mut self, name: &str, init_val: Option<i32>) -> (r: Result<
        (),
        RenderError,
    >)
        requires
            old(self).well_formed(),
        ensures
            final(self).well_formed(),
            final(self)@ == spec_assoc_insert(
                old(self)@,
                name@,
                match init_val {
                    Some(v) => v,
                    None => 0,
                },
            ),
            r is Ok <==> spec_assoc_get(old(self)@, name@) is None,
            r matches Err(e) ==> e matches RenderError::CounterExists(n) && n@ == name@,
    {
        let v = match init_val {
            Some(v) => v,
            None => 0,
        };
        proof {
            lemma_assoc_insert_unique(self@, name@, v);
            lemma_assoc_find_props(self@, name@);
        }
        match self.find(name) {
            Some(i) => {
                self.counters.set(i, (name.to_owned(), v));
                proof {
                    assert(self@ =~= spec_assoc_insert(old(self)@, name@, v));
                }
                Err(RenderError::CounterExists(name.to_owned()))
            },
            None => {
                self.counters.push((name.to_owned(), v));
                proof {
                    assert(self@ =~= spec_assoc_insert(old(self)@, name@, v));
                }
                Ok(())
            },
        }
    }

    /// A counter call: with no argument the counter steps up by one, with
    /// an argument it is set to that value; either way the new value comes
    /// back. An unknown name is reported and changes nothing.
    pub fn increment(&mut self, name: &str, value: Option<i32>) -> (r: Result<
        i32,
        RenderError,
    >)
        requires
            old(self).well_formed(),
            (value is None && spec_assoc_get(old(self)@, name@) is Some) ==> spec_assoc_get(
                old(self)@,
                name@,
            )->Some_0 < i32::MAX,
        ensures
            final(self).well_formed(),
            r is Ok <==> spec_assoc_get(old(self)@, name@) is Some,
            r matches Ok(v) ==> {
                &&& v as int == (match value {
                    Some(x) => x as int,
                    None => spec_assoc_get(old(self)@, name@)->Some_0 + 1,
                })
                &&& final(self)@ == spec_assoc_insert(old(self)@, name@, v)
            },
            r matches Err(e) ==> e matches RenderError::CounterNotFound(n) && n@ == name@
                && final(self)@ == old(self)@,
    {
        proof {
            lemma_assoc_find_props(self@, name@);
        }
        match self.find(name) {
            Some(i) => {
                let current = self.counters[i].1;
                let new_value = match value {
                    Some(x) => x,
                    None => current + 1,
                };
                proof {
                    lemma_assoc_insert_unique(self@, name@, new_value);
                }
                self.counters.set(i, (name.to_owned(), new_value));
                proof {
                    assert(self@ =~= spec_assoc_insert(old(self)@, name@, new_value));
                }
                Ok(new_value)
            },
            None => Err(RenderError::CounterNotFound(name.to_owned())),
        }
    }
}

/// The bitmask of a position list: character `p` of the result (counting
/// from the left) is `1` exactly when some listed position equals
/// `length - p`, so bit `length` stands first and bit 1 last; position 0
/// sets no bit.
pub open spec fn spec_bitmask_ok(values: Seq<i64>, length: int) -> bool {
    forall|i: int| 0 <= i < values.len() ==> 0 <= #[trigger] values[i] <= length
}

pub open spec fn spec_bitmask_char(values: Seq<i64>, length: int, p: int) -> char {
    if exists|i: int| 0 <= i < values.len() && values[i] == length - p {
        '1'
    } else {
        '0'
    }
}

/// Renders the bitmask of `values` with `length` bits, rejecting a
/// negative position and one beyond the mask size.
#[verifier::loop_isolation(false)]
pub fn bitmask(values: &Vec<i64>, length: usize) -> (r: Result<String, RenderError>)
    ensures
        r is Ok <==> spec_bitmask_ok(values@, length as int),
        r matches Ok(s) ==> s@.len() == length && (forall|p: int|
            0 <= p < length ==> s@[p] == spec_bitmask_char(values@, length as int, p)),
        r matches Err(e) ==> (e is BadBitmaskInput && (exists|i: int|
            0 <= i < values@.len() && values@[i] < 0)) || (e is BitTooLarge && (exists|i: int|
            0 <= i < values@.len() && values@[i] > length)),
{
    let mut mask: Vec<char> = Vec::new();
    let mut p: usize = 0;
    while p < length
        invariant
            p <= length,
            mask@.len() == p,
            forall|q: int| 0 <= q < p ==> mask@[q] == '0',
        decreases length - p,
    {
        mask.push('0');
        p = p + 1;
    }
    let n = values.len();
    let mut i: usize = 0;
    while i < n
        invariant
            i <= n,
            mask@.len() == length,
            forall|j: int| 0 <= j < i ==> 0 <= #[trigger] values@[j] <= length,
            forall|q: int|
                0 <= q < length ==> mask@[q] == spec_bitmask_char(
                    values@.take(i as int),
                    length as int,
                    q,
                ),
        decreases n - i,
    {
        let elem = values[i];
        if elem < 0 {
            return Err(RenderError::BadBitmaskInput);
        }
        let pos = elem as u64;
        if pos > length as u64 {
            return Err(RenderError::BitTooLarge);
        }
        let ghost pre = values@.take(i as int);
        let ghost cur = values@.take(i + 1);
        proof {
            assert(cur.len() == i + 1);
            assert(cur[i as int] == values@[i as int]);
            assert(forall|j: int| 0 <= j < i ==> cur[j] == pre[j]);
        }
        if pos >= 1 {
            let idx = length - (pos as usize);
            mask.set(idx, '1');
        }
        proof {
            assert forall|q: int| 0 <= q < length implies mask@[q] == spec_bitmask_char(
                cur,
                length as int,
                q,
            ) by {
                if exists|j: int| 0 <= j < cur.len() && cur[j] == length - q {
                    let w = choose|j: int| 0 <= j < cur.len() && #[trigger] cur[j] == length
                        - q;
                    if w < i {
                        assert(pre[w] == length - q);
                        assert(spec_bitmask_char(pre, length as int, q) == '1');
                    } else {
                        assert(values@[i as int] == length - q);
                    }
                } else {
                    assert(!(exists|j: int| 0 <= j < pre.len() && pre[j] == length - q));
                    assert(spec_bitmask_char(pre, length as int, q) == '0');
                    assert(values@[i as int] != length - q);
                }
            }
        }
        i = i + 1;
    }
    proof {
        assert(values@.take(n as int) =~= values@);
    }
    Ok(string_from_chars(&mask))
}

/// One value a reshaping filter hands back: a cell, or the undefined
/// marker a missing column leaves behind.
#[derive(Debug, PartialEq, Eq, Clone)]
pub enum UnpackCell {
    Val(CtxValue),
    Undef,
}

/// The model of an unpacked cell.
pub enum UnpackCellModel {
    Val(crate::cells::CellModel),
    Undef,
}

impl View for UnpackCell {
    type V = UnpackCellModel;

    open spec fn view(&self) -> UnpackCellModel {
        match self {
            UnpackCell::Val(v) => UnpackCellModel::Val(v@),
            UnpackCell::Undef => UnpackCellModel::Undef,
        }
    }
}

/// What one row unpacks to: the single requested column's value, or the
/// tuple of several requested columns.
#[derive(Debug, PartialEq, Eq)]
pub enum UnpackItem {
    Single(UnpackCell),
    Tuple(Vec<UnpackCell>),
}

/// The model of an unpacked row.
pub enum UnpackItemModel {
    Single(UnpackCellModel),
    Tuple(Seq<UnpackCellModel>),
}

impl View for UnpackItem {
    type V = UnpackItemModel;

    open spec fn view(&self) -> UnpackItemModel {
        match self {
            UnpackItem::Single(c) => UnpackItemModel::Single(c@),
            UnpackItem::Tuple(cs) => UnpackItemModel::Tuple(
                cs@.map_values(|c: UnpackCell| c@),
            ),
        }
    }
}

/// What a whole unpack call yields: one item for a single row, a list of
/// items for a table or row list.
#[derive(Debug, PartialEq, Eq)]
pub enum UnpackOutput {
    Item(UnpackItem),
    Items(Vec<UnpackItem>),
}

/// The shapes unpack accepts: one row, a whole table (a mapping of
/// mappings), a list of rows, or anything else.
pub enum UnpackInput {
    RowMap(Row),
    Table(RowTable),
    RowSeq(Vec<Row>),
    Other,
}

/// The cell a row unpacks under one key: the cell itself, or the
/// undefined marker when the row has no such column.
pub open spec fn spec_unpack_cell(
    row: Seq<(Seq<char>, crate::cells::CellModel)>,
    k: Seq<char>,
) -> UnpackCellModel {
    match spec_assoc_get(row, k) {
        Some(v) => UnpackCellModel::Val(v),
        None => UnpackCellModel::Undef,
    }
}

/// What one row unpacks to under a key list: a lone key collapses to the
/// bare value.
pub open spec fn spec_unpack_item(
    row: Seq<(Seq<char>, crate::cells::CellModel)>,
    keys: Seq<Seq<char>>,
) -> UnpackItemModel {
    if keys.len() == 1 {
        UnpackItemModel::Single(spec_unpack_cell(row, keys[0]))
    } else {
        UnpackItemModel::Tuple(keys.map_values(|k: Seq<char>| spec_unpack_cell(row, k)))
    }
}

/// Unpacks one row under the requested keys.
fn unpack_row(row: &Row, keys: &Vec<String>) -> (r: UnpackItem)
    ensures
        r@ == spec_unpack_item(row@, keys@.map_values(|s: String| s@)),
{
    let ghost kv = keys@.map_values(|s: String| s@);
    if keys.len() == 1 {
        match row.get(keys[0].as_str()) {
            Some(v) => UnpackItem::Single(UnpackCell::Val(v.clone())),
            None => UnpackItem::Single(UnpackCell::Undef),
        }
    } else {
        let n = keys.len();
        let mut cells: Vec<UnpackCell> = Vec::new();
        let mut j: usize = 0;
        while j < n
            invariant
                j <= n,
                n == keys@.len(),
                kv == keys@.map_values(|s: String| s@),
                cells@.len() == j,
                forall|q: int|
                    0 <= q < j ==> (#[trigger] cells@[q])@ == spec_unpack_cell(row@, kv[q]),
            decreases n - j,
        {
            match row.get(keys[j].as_str()) {
                Some(v) => cells.push(UnpackCell::Val(v.clone())),
                None => cells.push(UnpackCell::Undef),
            }
            j = j + 1;
        }
        let r = UnpackItem::Tuple(cells);
        proof {
            assert(r@ matches UnpackItemModel::Tuple(ts) && ts =~= kv.map_values(
                |k: Seq<char>| spec_unpack_cell(row@, k),
            ));
        }
        r
    }
}

/// Reshapes rows to value arrays: a single row yields one item, a whole
/// table or a list of rows yields one item per row in order; any other
/// shape is rejected.
pub fn unpack(input: &UnpackInput, keys: &Vec<String>) -> (r: Result<
    UnpackOutput,
    RenderError,
>)
    ensures
        ({
            let kv = keys@.map_values(|s: String| s@);
            match input {
                UnpackInput::RowMap(row) => r matches Ok(o) && o matches UnpackOutput::Item(
                    it,
                ) && it@ == spec_unpack_item(row@, kv),
                UnpackInput::Table(t) => r matches Ok(o) && o matches UnpackOutput::Items(its)
                    && its@.len() == t@.len() && forall|q: int|
                    0 <= q < t@.len() ==> (#[trigger] its@[q])@ == spec_unpack_item(
                        t@[q].1,
                        kv,
                    ),
                UnpackInput::RowSeq(rows) => r matches Ok(o) && o matches UnpackOutput::Items(
                    its,
                ) && its@.len() == rows@.len() && forall|q: int|
                    0 <= q < rows@.len() ==> (#[trigger] its@[q])@ == spec_unpack_item(
                        (#[trigger] rows@[q])@,
                        kv,
                    ),
                UnpackInput::Other => r matches Err(e) && e is CannotUnpack,
            }
        }),
{
    match input {
        UnpackInput::RowMap(row) => Ok(UnpackOutput::Item(unpack_row(row, keys))),
        UnpackInput::Table(t) => {
            let n = t.len();
            let mut items: Vec<UnpackItem> = Vec::new();
            let mut q: usize = 0;
            while q < n
                invariant
                    q <= n,
                    n == t@.len(),
                    items@.len() == q,
                    forall|x: int|
                        0 <= x < q ==> (#[trigger] items@[x])@ == spec_unpack_item(
                            t@[x].1,
                            keys@.map_values(|s: String| s@),
                        ),
                decreases n - q,
            {
                items.push(unpack_row(t.row_at(q), keys));
                q = q + 1;
            }
            Ok(UnpackOutput::Items(items))
        },
        UnpackInput::RowSeq(rows) => {
            let n = rows.len();
            let mut items: Vec<UnpackItem> = Vec::new();
            let mut q: usize = 0;
            while q < n
                invariant
                    q <= n,
                    n == rows@.len(),
                    items@.len() == q,
                    forall|x: int|
                        0 <= x < q ==> (#[trigger] items@[x])@ == spec_unpack_item(
                            (#[trigger] rows@[x])@,
                            keys@.map_values(|s: String| s@),
                        ),
                decreases n - q,
            {
                items.push(unpack_row(&rows[q], keys));
                q = q + 1;
            }
            Ok(UnpackOutput::Items(items))
        },
        UnpackInput::Other => Err(RenderError::CannotUnpack),
    }
}

/// The rows a template renders: the indices, in table order, of the keys
/// that pass the narrowing sets.
#[verifier::loop_isolation(false)]
pub fn selected_row_indices(
    table_keys: &Vec<String>,
    inc: Option<&KeySet>,
    exc: Option<&KeySet>,
) -> (r: Vec<usize>)
    ensures
        forall|j: int|
            0 <= j < r@.len() ==> (#[trigger] r@[j]) < table_keys@.len() && spec_keep(
                table_keys@[r@[j] as int]@,
                spec_opt_set_view(inc),
                spec_opt_set_view(exc),
            ),
        forall|j1: int, j2: int| 0 <= j1 < j2 < r@.len() ==> r@[j1] < r@[j2],
        forall|i: int|
            0 <= i < table_keys@.len() && spec_keep(
                (#[trigger] table_keys@[i])@,
                spec_opt_set_view(inc),
                spec_opt_set_view(exc),
            ) ==> exists|j: int| 0 <= j < r@.len() && r@[j] == i,
{
    let n = table_keys.len();
    let mut out: Vec<usize> = Vec::new();
    let mut i: usize = 0;
    while i < n
        invariant
            i <= n,
            forall|j: int|
                0 <= j < out@.len() ==> (#[trigger] out@[j]) < i && spec_keep(
                    table_keys@[out@[j] as int]@,
                    spec_opt_set_view(inc),
                    spec_opt_set_view(exc),
                ),
            forall|j1: int, j2: int| 0 <= j1 < j2 < out@.len() ==> out@[j1] < out@[j2],
            forall|k: int|
                0 <= k < i && spec_keep(
                    (#[trigger] table_keys@[k])@,
                    spec_opt_set_view(inc),
                    spec_opt_set_view(exc),
                ) ==> exists|j: int| 0 <= j < out@.len() && out@[j] == k,
        decreases n - i,
    {
        let key = &table_keys[i];
        let inc_ok = match inc {
            Some(s) => s.contains(key.as_str()),
            None => true,
        };
        let exc_ok = match exc {
            Some(s) => !s.contains(key.as_str()),
            None => true,
        };
        let ghost pre_out = out@;
        if inc_ok && exc_ok {
            out.push(i);
        }
        i = i + 1;
        proof {
            assert forall|k: int|
                0 <= k < i && spec_keep(
                    (#[trigger] table_keys@[k])@,
                    spec_opt_set_view(inc),
                    spec_opt_set_view(exc),
                ) implies exists|j: int| 0 <= j < out@.len() && out@[j] == k by {
                if k < i - 1 {
                    let w = choose|w: int|
                        0 <= w < pre_out.len() && #[trigger] pre_out[w] == k;
                    assert(out@[w] == k);
                } else {
                    assert(out@[out@.len() - 1] == k);
                }
            }
        }
    }
    out
}

/// The concatenation of a list of texts.
pub open spec fn spec_concat(ss: Seq<Seq<char>>) -> Seq<char>
    decreases ss.len(),
{
    if ss.len() == 0 {
        Seq::empty()
    } else {
        spec_concat(ss.drop_last()) + ss.last()
    }
}

/// One rendered row under spacing normalization: trailing whitespace
/// dropped, one blank line appended.
pub open spec fn spec_adjusted(piece: Seq<char>) -> Seq<char> {
    spec_trim_end(piece) + "\r\n\r\n"@
}

/// Normalizes one rendered piece of text.
pub fn adjust_piece(piece: &str) -> (r: String)
    ensures
        r@ == spec_adjusted(piece@),
{
    let mut out = trim_end_str(piece);
    out.append("\r\n\r\n");
    out
}

/// What a template's renderings assemble to: each piece normalized when
/// spacing is adjusted, the concatenation normalized once more.
pub open spec fn spec_assemble(pieces: Seq<Seq<char>>, adjust: bool) -> Seq<char> {
    if adjust {
        spec_adjusted(spec_concat(pieces.map_values(|p: Seq<char>| spec_adjusted(p))))
    } else {
        spec_concat(pieces)
    }
}

/// Joins the renderings of one template's rows, normalizing spacing
/// between and after them when asked to.
#[verifier::loop_isolation(false)]
pub fn assemble_rows(pieces: &Vec<String>, adjust: bool) -> (r: String)
    ensures
        r@ == spec_assemble(pieces@.map_values(|s: String| s@), adjust),
{
    let ghost pv = pieces@.map_values(|s: String| s@);
    let n = pieces.len();
    let mut out = String::new();
    let mut i: usize = 0;
    while i < n
        invariant
            i <= n,
            !adjust ==> out@ == spec_concat(pv.take(i as int)),
            adjust ==> out@ == spec_concat(
                pv.take(i as int).map_values(|p: Seq<char>| spec_adjusted(p)),
            ),
        decreases n - i,
    {
        if adjust {
            let piece = adjust_piece(pieces[i].as_str());
            out.append(piece.as_str());
        } else {
            out.append(pieces[i].as_str());
        }
        i = i + 1;
        proof {
            if adjust {
                let f = |p: Seq<char>| spec_adjusted(p);
                assert(pv.take(i as int).map_values(f).drop_last() =~= pv.take(i - 1)
                    .map_values(f));
                assert(pv.take(i as int).map_values(f).last() == spec_adjusted(pv[i - 1]));
            } else {
                assert(pv.take(i as int).drop_last() =~= pv.take(i - 1));
                assert(pv.take(i as int).last() == pv[i - 1]);
            }
        }
    }
    proof {
        assert(pv.take(n as int) =~= pv);
        if adjust {
            assert(pv.take(n as int).map_values(|p: Seq<char>| spec_adjusted(p)) =~= pv
                .map_values(|p: Seq<char>| spec_adjusted(p)));
        }
    }
    if adjust {
        adjust_piece(out.as_str())
    } else {
        out
    }
}

/// Normalizes a template rendered without a bound source: only the final
/// normalization applies.
pub fn assemble_single(piece: String, adjust: bool) -> (r: String)
    ensures
        adjust ==> r@ == spec_adjusted(piece@),
        !adjust ==> r@ == piece@,
{
    if adjust {
        adjust_piece(piece.as_str())
    } else {
        piece
    }
}

} // verus!
