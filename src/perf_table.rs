use vstd::prelude::*;
use vstd::utf8::encode_utf8;

use crate::buffer::Buffer;
use crate::lazy_quantity::{LazyQuantity, plus_all, rendered, QuantityView};
use crate::record::{new_record, push_field, record_fields};

verus! {

/// Textual type of the values in a column.
#[derive(Clone, Copy, Debug, PartialEq, Eq)]
pub enum ColumnType {
    /// Generic integer counter.
    Int,
    /// Nanosecond timestamp.
    Epoch19,
}

/// Definition of a single column.
#[derive(Clone, Copy, Debug, PartialEq, Eq)]
pub enum Column {
    /// One field of the source line.
    Scalar { column_type: ColumnType },
    /// A fixed number of consecutive fields of the source line.
    Vector { column_type: ColumnType, count: usize },
}

/// How the fields of a vector column appear in the output row.
#[derive(Clone, Copy, Debug, PartialEq, Eq)]
pub enum VectorPolicy {
    /// The fields are summed into one output field.
    Sum,
    /// Each field becomes an output field of its own.
    Separate,
}

/// Bytes of a column name.
pub open spec fn name_bytes(name: String) -> Seq<u8> {
    encode_utf8(name@)
}

/// `a` and `b` agree before position `k`, where `a` ends or has a smaller
/// byte than `b`.
pub open spec fn lex_lt_at(a: Seq<u8>, b: Seq<u8>, k: int) -> bool {
    &&& 0 <= k <= a.len()
    &&& k < b.len()
    &&& forall|i: int| 0 <= i < k ==> a[i] == b[i]
    &&& (k == a.len() || a[k] < b[k])
}

/// Lexicographic byte order, the order of Rust's `str`.
pub open spec fn bytes_lt(a: Seq<u8>, b: Seq<u8>) -> bool {
    exists|k: int| lex_lt_at(a, b, k)
}

proof fn lemma_bytes_lt_irreflexive(a: Seq<u8>)
    ensures
        !bytes_lt(a, a),
{
}

proof fn lemma_bytes_lt_transitive(a: Seq<u8>, b: Seq<u8>, c: Seq<u8>)
    requires
        bytes_lt(a, b),
        bytes_lt(b, c),
    ensures
        bytes_lt(a, c),
{
    let k1 = choose|k: int| lex_lt_at(a, b, k);
    let k2 = choose|k: int| lex_lt_at(b, c, k);
    if k1 <= k2 {
        if k1 < k2 {
            assert(b[k1] == c[k1]) by {
                if k1 < b.len() {
                }
            }
        }
        assert(lex_lt_at(a, c, k1));
    } else {
        assert(a[k2] == b[k2]);
        assert(lex_lt_at(a, c, k2));
    }
}

proof fn lemma_bytes_lt_asymmetric(a: Seq<u8>, b: Seq<u8>)
    requires
        bytes_lt(a, b),
    ensures
        !bytes_lt(b, a),
        a != b,
{
    if bytes_lt(b, a) {
        lemma_bytes_lt_transitive(a, b, a);
    }
}

/// Compares two byte strings in lexicographic order.
fn compare_bytes(a: &[u8], b: &[u8]) -> (r: core::cmp::Ordering)
    ensures
        r == core::cmp::Ordering::Less ==> bytes_lt(a@, b@),
        r == core::cmp::Ordering::Equal ==> a@ == b@,
        r == core::cmp::Ordering::Greater ==> bytes_lt(b@, a@),
{
    let mut i: usize = 0;
    while i < a.len() && i < b.len()
        invariant
            i <= a@.len(),
            i <= b@.len(),
            forall|j: int| 0 <= j < i ==> a@[j] == b@[j],
        decreases a@.len() - i,
    {
        if a[i] < b[i] {
            assert(lex_lt_at(a@, b@, i as int));
            return core::cmp::Ordering::Less;
        } else if b[i] < a[i] {
            assert(lex_lt_at(b@, a@, i as int));
            return core::cmp::Ordering::Greater;
        }
        i = i + 1;
    }
    if i < b.len() {
        assert(lex_lt_at(a@, b@, i as int));
        core::cmp::Ordering::Less
    } else if i < a.len() {
        assert(lex_lt_at(b@, a@, i as int));
        core::cmp::Ordering::Greater
    } else {
        assert(a@ =~= b@);
        core::cmp::Ordering::Equal
    }
}

/// Abstract state of a [`TableMetadata`].
pub struct TableView {
    pub delimiter: u8,
    /// Column names, in source order.
    pub names: Seq<Seq<u8>>,
    /// Column definitions, in source order.
    pub columns: Seq<Column>,
    /// Source positions of the columns, in output order.
    pub order: Seq<usize>,
    pub vector_policy: VectorPolicy,
}

/// `order` lists every position of `names` once, sorted by name.
pub open spec fn sorted_order(names: Seq<Seq<u8>>, order: Seq<usize>) -> bool {
    &&& names.len() <= usize::MAX
    &&& order.len() == names.len()
    &&& forall|i: int| 0 <= i < order.len() ==> #[trigger] order[i] < names.len()
    &&& forall|i: int, j: int|
        0 <= i < j < order.len() ==> bytes_lt(#[trigger] names[order[i] as int], #[trigger] names[order[j] as int])
    &&& forall|k: usize| k < names.len() ==> #[trigger] order.contains(k)
}

/// No two names are equal.
pub open spec fn names_distinct(names: Seq<Seq<u8>>) -> bool {
    forall|i: int, j: int| 0 <= i < j < names.len() ==> #[trigger] names[i] != #[trigger] names[j]
}

/// Number of source fields a column takes.
pub open spec fn source_width(c: Column) -> nat {
    match c {
        Column::Scalar { .. } => 1,
        Column::Vector { count, .. } => count as nat,
    }
}

/// Number of output fields a column gives.
pub open spec fn output_width(c: Column, policy: VectorPolicy) -> nat {
    match c {
        Column::Scalar { .. } => 1,
        Column::Vector { count, .. } => match policy {
            VectorPolicy::Sum => 1,
            VectorPolicy::Separate => count as nat,
        },
    }
}

/// The fields of `parts`, one part after another.
pub open spec fn concat_fields(parts: Seq<Seq<Seq<u8>>>) -> Seq<Seq<u8>>
    decreases parts.len(),
{
    if parts.len() == 0 {
        Seq::empty()
    } else {
        concat_fields(parts.drop_last()) + parts.last()
    }
}

/// Header fields of the column at source position `k`: its name, once per
/// output field.
pub open spec fn header_part(t: TableView, k: int) -> Seq<Seq<u8>> {
    Seq::new(output_width(t.columns[k], t.vector_policy), |j: int| t.names[k])
}

/// The header row: each column's header fields, in output order.
pub open spec fn header_fields(t: TableView) -> Seq<Seq<u8>> {
    concat_fields(Seq::new(t.order.len(), |i: int| header_part(t, t.order[i] as int)))
}

/// The (name, column) entries of a table, in source order.
pub open spec fn entries(t: TableView) -> Seq<(Seq<u8>, Column)> {
    Seq::new(t.names.len(), |k: int| (t.names[k], t.columns[k]))
}

/// The (name, column) entries of a table, in output order.
pub open spec fn sorted_entries(t: TableView) -> Seq<(Seq<u8>, Column)> {
    Seq::new(t.order.len(), |i: int| (t.names[t.order[i] as int], t.columns[t.order[i] as int]))
}

/// Names strictly ascend along `e`.
pub open spec fn names_ascending(e: Seq<(Seq<u8>, Column)>) -> bool {
    forall|i: int, j: int| 0 <= i < j < e.len() ==> bytes_lt(#[trigger] e[i].0, #[trigger] e[j].0)
}

proof fn lemma_ascending_prefix_unique(e1: Seq<(Seq<u8>, Column)>, e2: Seq<(Seq<u8>, Column)>, n: int)
    requires
        names_ascending(e1),
        names_ascending(e2),
        forall|x: (Seq<u8>, Column)| e1.contains(x) <==> e2.contains(x),
        0 <= n <= e1.len(),
        n <= e2.len(),
    ensures
        forall|i: int| 0 <= i < n ==> e1[i] == e2[i],
    decreases n,
{
    if n > 0 {
        lemma_ascending_prefix_unique(e1, e2, n - 1);
        let i = n - 1;
        let (a, b) = (e1[i], e2[i]);
        if a != b {
            assert(e1.contains(a));
            assert(e2.contains(b));
            let j = choose|j: int| 0 <= j < e2.len() && e2[j] == a;
            let m = choose|m: int| 0 <= m < e1.len() && e1[m] == b;
            if j < i {
                assert(e1[j] == a);
                lemma_bytes_lt_irreflexive(a.0);
            }
            if m < i {
                assert(e2[m] == b);
                lemma_bytes_lt_irreflexive(b.0);
            }
            assert(bytes_lt(b.0, a.0));
            assert(bytes_lt(a.0, b.0));
            lemma_bytes_lt_asymmetric(a.0, b.0);
        }
    }
}

proof fn lemma_ascending_unique(e1: Seq<(Seq<u8>, Column)>, e2: Seq<(Seq<u8>, Column)>)
    requires
        names_ascending(e1),
        names_ascending(e2),
        forall|x: (Seq<u8>, Column)| e1.contains(x) <==> e2.contains(x),
    ensures
        e1 == e2,
{
    if e1.len() < e2.len() {
        lemma_ascending_prefix_unique(e1, e2, e1.len() as int);
        let x = e2[e1.len() as int];
        assert(e2.contains(x));
        let j = choose|j: int| 0 <= j < e1.len() && e1[j] == x;
        assert(e2[j] == x);
        lemma_bytes_lt_irreflexive(x.0);
    } else if e2.len() < e1.len() {
        lemma_ascending_prefix_unique(e2, e1, e2.len() as int);
        let x = e1[e2.len() as int];
        assert(e1.contains(x));
        let j = choose|j: int| 0 <= j < e2.len() && e2[j] == x;
        assert(e1[j] == x);
        lemma_bytes_lt_irreflexive(x.0);
    } else {
        lemma_ascending_prefix_unique(e1, e2, e1.len() as int);
    }
    assert(e1 =~= e2);
}

proof fn lemma_sorted_entries(t: TableMetadata)
    requires
        t.wf(),
    ensures
        names_ascending(sorted_entries(t@)),
        forall|x: (Seq<u8>, Column)| entries(t@).contains(x) <==> sorted_entries(t@).contains(x),
{
    let (e, se) = (entries(t@), sorted_entries(t@));
    assert forall|x: (Seq<u8>, Column)| e.contains(x) implies se.contains(x) by {
        let k = choose|k: int| 0 <= k < e.len() && e[k] == x;
        let ku = k as usize;
        assert(sorted_order(t@.names, t@.order));
        assert(ku < t@.names.len());
        assert(t@.order.contains(ku));
        let i = choose|i: int| 0 <= i < t@.order.len() && t@.order[i] == k as usize;
        assert(t@.order[i] as int == k);
        assert(e[k] == (t@.names[k], t@.columns[k]));
        assert(se[i] == (t@.names[k], t@.columns[k]));
    }
    assert forall|x: (Seq<u8>, Column)| se.contains(x) implies e.contains(x) by {
        let i = choose|i: int| 0 <= i < se.len() && se[i] == x;
        assert(t@.order[i] < t@.names.len());
        assert(e[t@.order[i] as int] == x);
    }
}

/// The header row is determined by the set of column definitions: two
/// well-formed tables with the same (name, column) entries, given in any
/// source order, and the same vector policy have the same columns in output
/// order and byte-identical headers.
pub proof fn lemma_header_deterministic(t1: TableMetadata, t2: TableMetadata)
    requires
        t1.wf(),
        t2.wf(),
        forall|x: (Seq<u8>, Column)| entries(t1@).contains(x) <==> entries(t2@).contains(x),
        t1@.vector_policy == t2@.vector_policy,
    ensures
        sorted_entries(t1@) == sorted_entries(t2@),
        header_fields(t1@) == header_fields(t2@),
{
    lemma_sorted_entries(t1);
    lemma_sorted_entries(t2);
    let (s1, s2) = (sorted_entries(t1@), sorted_entries(t2@));
    lemma_ascending_unique(s1, s2);
    let parts1 = Seq::new(t1@.order.len(), |i: int| header_part(t1@, t1@.order[i] as int));
    let parts2 = Seq::new(t2@.order.len(), |i: int| header_part(t2@, t2@.order[i] as int));
    assert(s1.len() == s2.len());
    assert forall|i: int| 0 <= i < parts1.len() implies parts1[i] == parts2[i] by {
        assert(s1[i] == s2[i]);
        assert(header_part(t1@, t1@.order[i] as int) =~= header_part(t2@, t2@.order[i] as int));
    }
    assert(parts1 =~= parts2);
}

/// `line` without one trailing newline.
pub open spec fn strip_newline(line: Seq<u8>) -> Seq<u8> {
    if line.len() > 0 && line.last() == 10 {
        line.drop_last()
    } else {
        line
    }
}

/// Pieces of `s` between occurrences of `delimiter`; there is always at
/// least one piece.
pub open spec fn split_fields(s: Seq<u8>, delimiter: u8) -> Seq<Seq<u8>>
    decreases s.len(),
{
    if s.len() == 0 {
        seq![Seq::empty()]
    } else {
        let prev = split_fields(s.drop_last(), delimiter);
        if s.last() == delimiter {
            prev.push(Seq::empty())
        } else {
            prev.update(prev.len() - 1, prev.last().push(s.last()))
        }
    }
}

/// Fields of one source line: none for a blank line, else the pieces
/// between delimiters of the line without its trailing newline.
pub open spec fn line_fields(line: Seq<u8>, delimiter: u8) -> Seq<Seq<u8>> {
    if strip_newline(line).len() == 0 {
        Seq::empty()
    } else {
        split_fields(strip_newline(line), delimiter)
    }
}

/// Views of a sequence of byte vectors.
pub open spec fn byte_views(v: Seq<Vec<u8>>) -> Seq<Seq<u8>> {
    v.map_values(|f: Vec<u8>| f@)
}

/// Splits one source line into its fields.
fn split_line(line: &[u8], delimiter: u8) -> (r: Vec<Vec<u8>>)
    ensures
        byte_views(r@) == line_fields(line@, delimiter),
{
    let mut len = line.len();
    if len > 0 && line[len - 1] == 10u8 {
        len = len - 1;
    }
    let ghost stripped = strip_newline(line@);
    assert(stripped =~= line@.take(len as int));
    if len == 0 {
        let none: Vec<Vec<u8>> = Vec::new();
        assert(byte_views(none@) =~= Seq::<Seq<u8>>::empty());
        return none;
    }
    let mut done: Vec<Vec<u8>> = Vec::new();
    let mut current: Vec<u8> = Vec::new();
    let mut i: usize = 0;
    while i < len
        invariant
            len <= line@.len(),
            stripped == line@.take(len as int),
            i <= len,
            split_fields(stripped.take(i as int), delimiter) == byte_views(done@).push(current@),
        decreases len - i,
    {
        let b = line[i];
        let ghost prefix = stripped.take(i as int + 1);
        assert(prefix.drop_last() =~= stripped.take(i as int));
        assert(prefix.last() == b);
        if b == delimiter {
            let ghost old_done = done@;
            done.push(current);
            current = Vec::new();
            assert(byte_views(done@) =~= byte_views(old_done).push(byte_views(done@).last()));
            assert(byte_views(done@).push(current@) =~= byte_views(old_done).push(
                byte_views(done@).last(),
            ).push(Seq::empty()));
        } else {
            let ghost old_current = current@;
            current.push(b);
            assert(byte_views(done@).push(current@) =~= byte_views(done@).push(old_current).update(
                byte_views(done@).len() as int,
                old_current.push(b),
            ));
        }
        i = i + 1;
    }
    assert(stripped.take(len as int) =~= stripped);
    let ghost old_done = done@;
    done.push(current);
    assert(byte_views(done@) =~= byte_views(old_done).push(byte_views(done@).last()));
    done
}

/// Index of the first source field of the column at source position `k`,
/// clamped to the `n` fields that the line has.
pub open spec fn column_start(columns: Seq<Column>, k: int, n: nat) -> nat
    decreases k,
{
    if k <= 0 {
        0
    } else {
        let s = column_start(columns, k - 1, n) + source_width(columns[k - 1]);
        if s > n {
            n
        } else {
            s
        }
    }
}

/// Index just past the last source field of the column at position `k`,
/// clamped to `n`.
pub open spec fn column_end(columns: Seq<Column>, k: int, n: nat) -> nat {
    let e = column_start(columns, k, n) + source_width(columns[k]);
    if e > n {
        n
    } else {
        e
    }
}

/// The source fields that the column at position `k` takes from `fields`;
/// fewer than its width when the line is short.
pub open spec fn column_values(columns: Seq<Column>, fields: Seq<Seq<u8>>, k: int) -> Seq<Seq<u8>> {
    fields.subrange(
        column_start(columns, k, fields.len()) as int,
        column_end(columns, k, fields.len()) as int,
    )
}

/// Output field `j` of a vector column rendered field by field: the value
/// itself, or `0` past the end of the line.
pub open spec fn separate_cell(values: Seq<Seq<u8>>, j: int) -> Seq<u8> {
    if j < values.len() {
        rendered(plus_all(QuantityView::Zero, seq![values[j]]))
    } else {
        rendered(QuantityView::Zero)
    }
}

/// Output fields of the column at source position `k`.
pub open spec fn row_part(t: TableView, fields: Seq<Seq<u8>>, k: int) -> Seq<Seq<u8>> {
    let values = column_values(t.columns, fields, k);
    match (t.columns[k], t.vector_policy) {
        (Column::Vector { count, .. }, VectorPolicy::Separate) => Seq::new(
            count as nat,
            |j: int| separate_cell(values, j),
        ),
        _ => seq![rendered(plus_all(QuantityView::Zero, values))],
    }
}

/// The row for one source line: each column's output fields, in output
/// order.
pub open spec fn row_fields(t: TableView, line: Seq<u8>) -> Seq<Seq<u8>> {
    let fields = line_fields(line, t.delimiter);
    concat_fields(Seq::new(t.order.len(), |i: int| row_part(t, fields, t.order[i] as int)))
}

/// Adds `fields[start..end]` to an empty quantity, in order.
fn sum_fields(fields: &Vec<Vec<u8>>, start: usize, end: usize) -> (r: LazyQuantity)
    requires
        start <= end <= fields@.len(),
    ensures
        r@ == plus_all(QuantityView::Zero, byte_views(fields@).subrange(start as int, end as int)),
{
    let ghost views = byte_views(fields@);
    let mut q = LazyQuantity::Zero;
    let mut m: usize = start;
    assert(views.subrange(start as int, start as int) =~= Seq::<Seq<u8>>::empty());
    while m < end
        invariant
            start <= m <= end <= fields@.len(),
            views == byte_views(fields@),
            q@ == plus_all(QuantityView::Zero, views.subrange(start as int, m as int)),
        decreases end - m,
    {
        q = q.plus(fields[m].as_slice());
        assert(views.subrange(start as int, m + 1).drop_last() =~= views.subrange(
            start as int,
            m as int,
        ));
        m = m + 1;
    }
    q
}

/// Metadata describing how one kind of accounting file maps to a table:
/// the field delimiter, the columns in the order their fields appear in the
/// source, and the output order of the columns, sorted by name.
pub struct TableMetadata {
    delimiter: u8,
    columns: Vec<(String, Column)>,
    output_order: Vec<usize>,
    vector_policy: VectorPolicy,
}

/// Names of a sequence of column definitions.
pub open spec fn definition_names(defs: Seq<(String, Column)>) -> Seq<Seq<u8>> {
    defs.map_values(|d: (String, Column)| name_bytes(d.0))
}

/// Columns of a sequence of column definitions.
pub open spec fn definition_columns(defs: Seq<(String, Column)>) -> Seq<Column> {
    defs.map_values(|d: (String, Column)| d.1)
}

impl View for TableMetadata {
    type V = TableView;

    closed spec fn view(&self) -> TableView {
        TableView {
            delimiter: self.delimiter,
            names: definition_names(self.columns@),
            columns: definition_columns(self.columns@),
            order: self.output_order@,
            vector_policy: self.vector_policy,
        }
    }
}

impl TableMetadata {
    /// Well-formedness: one name per column, and the output order sorts the
    /// columns by name.
    pub open spec fn wf(&self) -> bool {
        &&& self@.names.len() == self@.columns.len()
        &&& sorted_order(self@.names, self@.order)
    }

    /// Builds table metadata from column definitions given in source order.
    /// Returns `None` when two columns share a name.
    pub fn new(delimiter: u8, definitions: Vec<(String, Column)>, vector_policy: VectorPolicy) -> (r:
        Option<TableMetadata>)
        ensures
            r is Some <==> names_distinct(definition_names(definitions@)),
            r matches Some(t) ==> {
                &&& t.wf()
                &&& t@.delimiter == delimiter
                &&& t@.names == definition_names(definitions@)
                &&& t@.columns == definition_columns(definitions@)
                &&& t@.vector_policy == vector_policy
            },
    {
        let ghost names = definition_names(definitions@);
        let mut order: Vec<usize> = Vec::new();
        let mut i: usize = 0;
        while i < definitions.len()
            invariant
                i <= definitions@.len(),
                names == definition_names(definitions@),
                names_distinct(names.take(i as int)),
                sorted_order(names.take(i as int), order@),
            decreases definitions@.len() - i,
        {
            let name = definitions[i].0.as_str().as_bytes();
            assert(name@ == names[i as int]);
            let mut p: usize = 0;
            let mut greater = false;
            while p < order.len() && !greater
                invariant
                    i < definitions@.len(),
                    names == definition_names(definitions@),
                    name@ == names[i as int],
                    names_distinct(names.take(i as int)),
                    sorted_order(names.take(i as int), order@),
                    p <= order@.len(),
                    forall|q: int| 0 <= q < p ==> bytes_lt(names[order@[q] as int], name@),
                    greater ==> p < order@.len() && bytes_lt(name@, names[order@[p as int] as int]),
                decreases order@.len() - p, (if greater { 0int } else { 1int }),
            {
                let current = definitions[order[p]].0.as_str().as_bytes();
                assert(order@[p as int] < i);
                assert(current@ == names[order@[p as int] as int]);
                match compare_bytes(current, name) {
                    core::cmp::Ordering::Less => {
                        p = p + 1;
                    },
                    core::cmp::Ordering::Equal => {
                        proof {
                            let k = order@[p as int] as int;
                            assert(names[k] == names[i as int]);
                            assert(!names_distinct(names));
                        }
                        return None;
                    },
                    core::cmp::Ordering::Greater => {
                        greater = true;
                    },
                }
            }
            proof {
                let prefix = names.take(i as int);
                let next = names.take(i as int + 1);
                assert forall|q: int| p <= q < order@.len() implies bytes_lt(
                    name@,
                    #[trigger] names[order@[q] as int],
                ) by {
                    assert(greater);
                    if q > p {
                        assert(prefix[order@[p as int] as int] == names[order@[p as int] as int]);
                        assert(prefix[order@[q] as int] == names[order@[q] as int]);
                        lemma_bytes_lt_transitive(
                            name@,
                            names[order@[p as int] as int],
                            names[order@[q] as int],
                        );
                    }
                }
                assert forall|a: int, b: int| 0 <= a < b < next.len() implies #[trigger] next[a]
                    != #[trigger] next[b] by {
                    if b == i {
                        assert(order@.contains(a as usize));
                        let q = choose|q: int| 0 <= q < order@.len() && order@[q] == a as usize;
                        if q < p {
                            lemma_bytes_lt_asymmetric(names[a], name@);
                        } else {
                            lemma_bytes_lt_asymmetric(name@, names[a]);
                        }
                    } else {
                        assert(prefix[a] != prefix[b]);
                    }
                }
            }
            let ghost old_order = order@;
            order.insert(p, i);
            proof {
                let prefix = names.take(i as int);
                let next = names.take(i as int + 1);
                assert(order@ == old_order.insert(p as int, i));
                assert forall|a: int, b: int| 0 <= a < b < order@.len() implies bytes_lt(
                    #[trigger] next[order@[a] as int],
                    #[trigger] next[order@[b] as int],
                ) by {
                    if a < p && b > p {
                        lemma_bytes_lt_transitive(
                            names[order@[a] as int],
                            name@,
                            names[order@[b] as int],
                        );
                    }
                    if a < p && b != p {
                        assert(prefix[old_order[a] as int] == names[old_order[a] as int]);
                    }
                    if a > p {
                        assert(prefix[old_order[a - 1] as int] == names[old_order[a - 1] as int]);
                        assert(prefix[old_order[b - 1] as int] == names[old_order[b - 1] as int]);
                    }
                    if a < p && b > p {
                        assert(prefix[old_order[b - 1] as int] == names[old_order[b - 1] as int]);
                    }
                }
                assert forall|k: usize| k < next.len() implies #[trigger] order@.contains(k) by {
                    if k == i {
                        assert(order@[p as int] == k);
                    } else {
                        assert(old_order.contains(k));
                        let q = choose|q: int| 0 <= q < old_order.len() && old_order[q] == k;
                        if q < p {
                            assert(order@[q] == k);
                        } else {
                            assert(order@[q + 1] == k);
                        }
                    }
                }
            }
            i = i + 1;
        }
        assert(names.take(definitions@.len() as int) =~= names);
        Some(TableMetadata { delimiter, columns: definitions, output_order: order, vector_policy })
    }

    /// Field delimiter of the source lines.
    pub fn delimiter(&self) -> (r: u8)
        ensures
            r == self@.delimiter,
    {
        self.delimiter
    }

    /// How vector columns are rendered.
    pub fn vector_policy(&self) -> (r: VectorPolicy)
        ensures
            r == self@.vector_policy,
    {
        self.vector_policy
    }

    /// Column definitions, in source order.
    pub fn columns(&self) -> (r: &Vec<(String, Column)>)
        ensures
            definition_names(r@) == self@.names,
            definition_columns(r@) == self@.columns,
    {
        &self.columns
    }

    /// Number of columns.
    pub fn column_count(&self) -> (r: usize)
        ensures
            r == self@.columns.len(),
    {
        self.columns.len()
    }

    /// Source field ranges of every column, in source order, for a line of
    /// `n` fields.
    fn column_bounds(&self, n: usize) -> (r: Vec<(usize, usize)>)
        requires
            self.wf(),
        ensures
            r@.len() == self@.columns.len(),
            forall|k: int|
                0 <= k < r@.len() ==> (#[trigger] r@[k]).0 == column_start(self@.columns, k, n as nat)
                    && r@[k].1 == column_end(self@.columns, k, n as nat),
    {
        let ghost cols = self@.columns;
        let mut bounds: Vec<(usize, usize)> = Vec::new();
        let mut start: usize = 0;
        let mut k: usize = 0;
        while k < self.columns.len()
            invariant
                cols == self@.columns,
                self.wf(),
                k <= cols.len(),
                bounds@.len() == k,
                start <= n,
                start == column_start(cols, k as int, n as nat),
                forall|q: int|
                    0 <= q < k ==> (#[trigger] bounds@[q]).0 == column_start(cols, q, n as nat)
                        && bounds@[q].1 == column_end(cols, q, n as nat),
            decreases cols.len() - k,
        {
            let width: usize = match self.columns[k].1 {
                Column::Scalar { .. } => 1,
                Column::Vector { count, .. } => count,
            };
            assert(width == source_width(cols[k as int]));
            let end: usize = if width > n - start {
                n
            } else {
                start + width
            };
            bounds.push((start, end));
            start = end;
            k = k + 1;
        }
        bounds
    }

    /// Appends the row for one source line to `record`, using `working` as
    /// scratch space: the line is split on the delimiter, each column takes
    /// its fields in source order, and the columns are written in output
    /// order. `working` is left empty.
    pub fn write_row(&self, line: &[u8], working: &mut Buffer, record: &mut csv::ByteRecord)
        requires
            self.wf(),
        ensures
            record_fields(*final(record)) == record_fields(*old(record)) + row_fields(self@, line@),
            final(working)@ == Seq::<u8>::empty(),
    {
        let ghost t = self@;
        let fields = split_line(line, self.delimiter);
        let ghost views = byte_views(fields@);
        let ghost parts = Seq::new(t.order.len(), |i: int| row_part(t, views, t.order[i] as int));
        let bounds = self.column_bounds(fields.len());
        working.clear();
        let mut i: usize = 0;
        while i < self.output_order.len()
            invariant
                t == self@,
                self.wf(),
                views == byte_views(fields@),
                views == line_fields(line@, t.delimiter),
                bounds@.len() == t.columns.len(),
                forall|k: int|
                    0 <= k < bounds@.len() ==> (#[trigger] bounds@[k]).0 == column_start(
                        t.columns,
                        k,
                        fields@.len() as nat,
                    ) && bounds@[k].1 == column_end(t.columns, k, fields@.len() as nat),
                parts == Seq::new(t.order.len(), |i: int| row_part(t, views, t.order[i] as int)),
                i <= t.order.len(),
                working@ == Seq::<u8>::empty(),
                record_fields(*record) == record_fields(*old(record)) + concat_fields(parts.take(i as int)),
            decreases t.order.len() - i,
        {
            let k = self.output_order[i];
            let (start, end) = bounds[k];
            let ghost values = column_values(t.columns, views, k as int);
            proof {
                assert(start <= end) by {
                    assert(bounds@[k as int].0 == column_start(t.columns, k as int, fields@.len() as nat));
                }
                assert(end <= fields@.len());
                assert(values == views.subrange(start as int, end as int));
            }
            let ghost before = record_fields(*record);
            let separate: Option<usize> = match (self.columns[k].1, self.vector_policy) {
                (Column::Vector { count, .. }, VectorPolicy::Separate) => Some(count),
                _ => None,
            };
            match separate {
                Some(count) => {
                    let mut j: usize = 0;
                    while j < count
                        invariant
                            start <= end <= fields@.len(),
                            views == byte_views(fields@),
                            values == views.subrange(start as int, end as int),
                            j <= count,
                            working@ == Seq::<u8>::empty(),
                            record_fields(*record) == before + Seq::new(
                                j as nat,
                                |m: int| separate_cell(values, m),
                            ),
                        decreases count - j,
                    {
                        let q = if j < end - start {
                            assert(views.subrange(start + j, start + j + 1) =~= seq![values[j as int]]);
                            sum_fields(&fields, start + j, start + j + 1)
                        } else {
                            LazyQuantity::Zero
                        };
                        q.write_to_record(working, record);
                        assert(Seq::new(j as nat, |m: int| separate_cell(values, m)).push(
                            separate_cell(values, j as int),
                        ) =~= Seq::new((j + 1) as nat, |m: int| separate_cell(values, m)));
                        j = j + 1;
                    }
                    assert(Seq::new(j as nat, |m: int| separate_cell(values, m)) =~= row_part(
                        t,
                        views,
                        k as int,
                    ));
                },
                None => {
                    let q = sum_fields(&fields, start, end);
                    q.write_to_record(working, record);
                    assert(seq![rendered(q@)] =~= row_part(t, views, k as int));
                    assert(before.push(rendered(q@)) =~= before + row_part(t, views, k as int));
                },
            }
            assert(parts.take(i as int + 1).drop_last() =~= parts.take(i as int));
            assert(record_fields(*record) =~= record_fields(*old(record)) + concat_fields(
                parts.take(i as int + 1),
            ));
            i = i + 1;
        }
        assert(parts.take(i as int) =~= parts);
    }

    /// A new record holding the header row.
    pub fn header_record(&self) -> (r: csv::ByteRecord)
        requires
            self.wf(),
        ensures
            record_fields(r) == header_fields(self@),
    {
        let mut record = new_record();
        self.write_header(&mut record);
        assert(Seq::<Seq<u8>>::empty() + header_fields(self@) =~= header_fields(self@));
        record
    }

    /// A new record holding the row for one source line; `working` is left
    /// empty.
    pub fn row_record(&self, line: &[u8], working: &mut Buffer) -> (r: csv::ByteRecord)
        requires
            self.wf(),
        ensures
            record_fields(r) == row_fields(self@, line@),
            final(working)@ == Seq::<u8>::empty(),
    {
        let mut record = new_record();
        self.write_row(line, working, &mut record);
        assert(Seq::<Seq<u8>>::empty() + row_fields(self@, line@) =~= row_fields(self@, line@));
        record
    }

    /// Appends the header row to `record`: each column's name in output
    /// order, once per output field of the column.
    pub fn write_header(&self, record: &mut csv::ByteRecord)
        requires
            self.wf(),
        ensures
            record_fields(*final(record)) == record_fields(*old(record)) + header_fields(self@),
    {
        let ghost t = self@;
        let ghost parts = Seq::new(t.order.len(), |i: int| header_part(t, t.order[i] as int));
        let mut i: usize = 0;
        while i < self.output_order.len()
            invariant
                t == self@,
                self.wf(),
                parts == Seq::new(t.order.len(), |i: int| header_part(t, t.order[i] as int)),
                i <= t.order.len(),
                record_fields(*record) == record_fields(*old(record)) + concat_fields(parts.take(i as int)),
            decreases t.order.len() - i,
        {
            let k = self.output_order[i];
            let name = self.columns[k].0.as_str().as_bytes();
            let width: usize = match self.columns[k].1 {
                Column::Scalar { .. } => 1,
                Column::Vector { count, .. } => match self.vector_policy {
                    VectorPolicy::Sum => 1,
                    VectorPolicy::Separate => count,
                },
            };
            assert(name@ == t.names[k as int]);
            assert(width == output_width(t.columns[k as int], t.vector_policy));
            let ghost before = record_fields(*record);
            let mut j: usize = 0;
            while j < width
                invariant
                    j <= width,
                    record_fields(*record) == before + Seq::new(j as nat, |m: int| name@),
                decreases width - j,
            {
                push_field(record, name);
                assert(Seq::new(j as nat, |m: int| name@).push(name@) =~= Seq::new(
                    (j + 1) as nat,
                    |m: int| name@,
                ));
                j = j + 1;
            }
            assert(parts.take(i as int + 1).drop_last() =~= parts.take(i as int));
            assert(Seq::new(j as nat, |m: int| name@) =~= header_part(t, k as int));
            assert(record_fields(*record) =~= record_fields(*old(record)) + concat_fields(
                parts.take(i as int + 1),
            ));
            i = i + 1;
        }
        assert(parts.take(i as int) =~= parts);
    }
}

} // verus!
