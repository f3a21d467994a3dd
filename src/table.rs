use vstd::prelude::*;
use crate::error::DbError;
use crate::value::{
    chars_of, compare_values, copy_value, denotes, fits, is_zero_value, lex_cmp, literal_ok,
    parse_value, push_value_text, string_of, value_fits, value_cmp, value_text, zero_value, int_literal,
    float_literal, nat_text, push_nat, ColumnDef, ColumnType, Value,
};

verus! {

/// A comparison operator of a predicate leaf.
#[derive(PartialEq, Eq, Structural, Clone, Copy, Debug)]
pub enum CmpOp {
    Eq,
    Ne,
    Lt,
    Le,
    Gt,
    Ge,
}

/// A boolean expression over comparisons of a column with a literal.
pub enum Predicate {
    Compare(String, CmpOp, String),
    And(Box<Predicate>, Box<Predicate>),
    Or(Box<Predicate>, Box<Predicate>),
    Not(Box<Predicate>),
}

/// One operation on a table's rows or columns.
pub enum TableOp {
    Insert(Vec<String>),
    Select(Option<Vec<String>>, Option<Predicate>),
    Update(Vec<(String, String)>, Option<Predicate>),
    Delete(Option<Predicate>),
    AlterAdd(Vec<ColumnDef>),
}

/// A table: a header and one column of values per header entry, all of `len` values.
pub struct Table {
    header: Vec<ColumnDef>,
    data: Vec<Vec<Value>>,
    len: usize,
}

/// Parts that make a well-formed table: one column per header entry, each of `len` values of
/// its declared type, and no two columns of the same name.
pub open spec fn parts_valid(h: Seq<ColumnDef>, cols: Seq<Seq<Value>>, len: nat) -> bool {
    &&& cols.len() == h.len()
    &&& forall|j: int| 0 <= j < cols.len() ==> #[trigger] cols[j].len() == len
    &&& forall|j: int, i: int| 0 <= j < cols.len() && 0 <= i < len ==> fits(h[j].kind, #[trigger] cols[j][i])
    &&& names_unique(h)
}

/// The indices `0..n`.
pub open spec fn all_columns(n: nat) -> Seq<int> {
    Seq::new(n, |j: int| j)
}

/// No two columns share a name.
pub open spec fn names_unique(h: Seq<ColumnDef>) -> bool {
    forall|a: int, b: int|
        #![trigger h[a], h[b]]
        0 <= a < h.len() && 0 <= b < h.len() && a != b ==> h[a].name@ != h[b].name@
}

/// The position of the column called `name`.
pub open spec fn column_index(h: Seq<ColumnDef>, name: Seq<char>) -> Option<int> {
    if exists|i: int| 0 <= i < h.len() && h[i].name@ == name {
        Some(choose|i: int| 0 <= i < h.len() && h[i].name@ == name)
    } else {
        None
    }
}

pub open spec fn op_holds(op: CmpOp, c: int) -> bool {
    match op {
        CmpOp::Eq => c == 0,
        CmpOp::Ne => c != 0,
        CmpOp::Lt => c < 0,
        CmpOp::Le => c <= 0,
        CmpOp::Gt => c > 0,
        CmpOp::Ge => c >= 0,
    }
}

pub open spec fn sign(d: int) -> int {
    if d < 0 { -1 } else if d == 0 { 0 } else { 1 }
}

/// How a stored value orders against a literal read in the value's own type.
pub open spec fn literal_cmp(v: Value, lit: Seq<char>) -> int {
    match v {
        Value::Int(x) => sign(x - int_literal(lit).unwrap()),
        Value::Float(x) => sign(x - float_literal(lit).unwrap()),
        Value::Text(t) => lex_cmp(t@, lit),
    }
}

/// The first error met in `p`, from left to right: a column that the header lacks, or a
/// literal that does not read as its column's type.
pub open spec fn predicate_error(h: Seq<ColumnDef>, p: Predicate) -> Option<DbError>
    decreases p,
{
    match p {
        Predicate::Compare(col, _, lit) => match column_index(h, col@) {
            None => Some(DbError::UnknownColumn),
            Some(j) => if literal_ok(h[j].kind, lit@) {
                None
            } else {
                Some(DbError::TypeMismatch)
            },
        },
        Predicate::And(a, b) | Predicate::Or(a, b) => match predicate_error(h, *a) {
            Some(e) => Some(e),
            None => predicate_error(h, *b),
        },
        Predicate::Not(a) => predicate_error(h, *a),
    }
}

/// Whether a row satisfies `p`.
pub open spec fn row_matches(h: Seq<ColumnDef>, p: Predicate, row: Seq<Value>) -> bool
    decreases p,
{
    match p {
        Predicate::Compare(col, op, lit) => op_holds(
            op,
            literal_cmp(row[column_index(h, col@).unwrap()], lit@),
        ),
        Predicate::And(a, b) => row_matches(h, *a, row) && row_matches(h, *b, row),
        Predicate::Or(a, b) => row_matches(h, *a, row) || row_matches(h, *b, row),
        Predicate::Not(a) => !row_matches(h, *a, row),
    }
}

pub open spec fn optional_predicate_error(h: Seq<ColumnDef>, p: Option<Predicate>) -> Option<DbError> {
    match p {
        None => None,
        Some(q) => predicate_error(h, q),
    }
}

/// Whether a row is chosen: every row is where there is no predicate.
pub open spec fn selected(h: Seq<ColumnDef>, p: Option<Predicate>, row: Seq<Value>) -> bool {
    match p {
        None => true,
        Some(q) => row_matches(h, q, row),
    }
}

/// The row at position `i` of a column store.
pub open spec fn row_of(cols: Seq<Seq<Value>>, i: int) -> Seq<Value> {
    Seq::new(cols.len(), |j: int| cols[j][i])
}

/// Which of the `n` rows of a column store are chosen.
pub open spec fn hits(h: Seq<ColumnDef>, p: Option<Predicate>, cols: Seq<Seq<Value>>, n: nat) -> Seq<bool> {
    Seq::new(n, |i: int| selected(h, p, row_of(cols, i)))
}

pub open spec fn count_true(s: Seq<bool>) -> nat
    decreases s.len(),
{
    if s.len() == 0 {
        0
    } else {
        count_true(s.drop_last()) + if s.last() { 1nat } else { 0nat }
    }
}

/// The values of `col` at the positions where `drop` is false.
pub open spec fn keep(col: Seq<Value>, drop: Seq<bool>) -> Seq<Value>
    decreases col.len(),
{
    if col.len() == 0 {
        Seq::empty()
    } else {
        keep(col.drop_last(), drop.take(col.len() - 1)) + if drop[col.len() - 1] {
            Seq::<Value>::empty()
        } else {
            seq![col.last()]
        }
    }
}

/// What an insert of the literals `vals` is refused for, if anything.
pub open spec fn insert_error(h: Seq<ColumnDef>, vals: Seq<String>) -> Option<DbError> {
    if vals.len() != h.len() {
        Some(DbError::Arity)
    } else if exists|j: int| 0 <= j < h.len() && !literal_ok(h[j].kind, #[trigger] vals[j]@) {
        Some(DbError::TypeMismatch)
    } else {
        None
    }
}

/// The first error met in a list of assignments, in order.
pub open spec fn assignment_error(h: Seq<ColumnDef>, a: Seq<(String, String)>) -> Option<DbError>
    decreases a.len(),
{
    if a.len() == 0 {
        None
    } else {
        match column_index(h, a[0].0@) {
            None => Some(DbError::UnknownColumn),
            Some(j) => if !literal_ok(h[j].kind, a[0].1@) {
                Some(DbError::TypeMismatch)
            } else {
                assignment_error(h, a.skip(1))
            },
        }
    }
}

/// The literal that a list of assignments gives column `j`: that of the last one naming it.
pub open spec fn assigned(h: Seq<ColumnDef>, a: Seq<(String, String)>, j: int) -> Option<Seq<char>>
    decreases a.len(),
{
    if a.len() == 0 {
        None
    } else if column_index(h, a.last().0@) == Some(j) {
        Some(a.last().1@)
    } else {
        assigned(h, a.drop_last(), j)
    }
}

/// `name type` of one column, as a select shows it.
pub open spec fn type_text(k: ColumnType) -> Seq<char> {
    match k {
        ColumnType::Integer => seq!['i', 'n', 't'],
        ColumnType::FloatingPoint => seq!['f', 'l', 'o', 'a', 't'],
        ColumnType::FixedChar(n) => seq!['c', 'h', 'a', 'r', '('] + nat_text(n as nat) + seq![')'],
        ColumnType::VarChar(n) => seq!['v', 'a', 'r', 'c', 'h', 'a', 'r', '('] + nat_text(n as nat)
            + seq![')'],
    }
}

pub open spec fn column_text(c: ColumnDef) -> Seq<char> {
    c.name@ + seq![' '] + type_text(c.kind)
}

pub open spec fn separator() -> Seq<char> {
    seq![' ', '|', ' ']
}

/// The header line of a select over the columns at `idx`.
pub open spec fn header_line(h: Seq<ColumnDef>, idx: Seq<int>) -> Seq<char>
    decreases idx.len(),
{
    if idx.len() == 0 {
        Seq::empty()
    } else if idx.len() == 1 {
        column_text(h[idx[0]])
    } else {
        header_line(h, idx.drop_last()) + separator() + column_text(h[idx.last()])
    }
}

/// One data line of a select: the row's values at `idx`.
pub open spec fn row_line(row: Seq<Value>, idx: Seq<int>) -> Seq<char>
    decreases idx.len(),
{
    if idx.len() == 0 {
        Seq::empty()
    } else if idx.len() == 1 {
        value_text(row[idx[0]])
    } else {
        row_line(row, idx.drop_last()) + separator() + value_text(row[idx.last()])
    }
}

/// The data lines of a select over the first `n` rows, each after a line break.
pub open spec fn rows_text(
    h: Seq<ColumnDef>,
    p: Option<Predicate>,
    cols: Seq<Seq<Value>>,
    idx: Seq<int>,
    n: nat,
) -> Seq<char>
    decreases n,
{
    if n == 0 {
        Seq::empty()
    } else {
        let row = row_of(cols, n - 1);
        rows_text(h, p, cols, idx, (n - 1) as nat) + if selected(h, p, row) {
            seq!['\n'] + row_line(row, idx)
        } else {
            Seq::<char>::empty()
        }
    }
}

/// The first name of a projection that the header lacks makes it fail.
pub open spec fn projection_ok(h: Seq<ColumnDef>, proj: Option<Seq<String>>) -> bool {
    match proj {
        None => true,
        Some(names) => forall|k: int| 0 <= k < names.len() ==> column_index(h, #[trigger] names[k]@).is_some(),
    }
}

/// The columns that a projection shows, in the order it names them; all of them for `*`.
pub open spec fn projection_indices(h: Seq<ColumnDef>, proj: Option<Seq<String>>) -> Seq<int> {
    match proj {
        None => Seq::new(h.len(), |j: int| j),
        Some(names) => Seq::new(names.len(), |k: int| column_index(h, names[k]@).unwrap()),
    }
}

pub open spec fn opt_view(proj: Option<Vec<String>>) -> Option<Seq<String>> {
    match proj {
        None => None,
        Some(v) => Some(v@),
    }
}

/// Finds the column called `name`.
pub fn find_column(h: &Vec<ColumnDef>, name: &String) -> (r: Option<usize>)
    requires
        names_unique(h@),
    ensures
        r.is_some() <==> column_index(h@, name@).is_some(),
        r.is_some() ==> r.unwrap() as int == column_index(h@, name@).unwrap(),
{
    let mut i: usize = 0;
    while i < h.len()
        invariant
            i <= h@.len(),
            names_unique(h@),
            forall|k: int| 0 <= k < i ==> h@[k].name@ != name@,
        decreases h@.len() - i,
    {
        if h[i].name == *name {
            proof {
                assert(h@[i as int].name@ == name@);
                assert(exists|k: int| 0 <= k < h@.len() && h@[k].name@ == name@);
                let c = choose|k: int| 0 <= k < h@.len() && h@[k].name@ == name@;
                assert(h@[c].name@ == name@);
                assert(c == i as int);
            }
            return Some(i);
        }
        i = i + 1;
    }
    None
}

/// Whether the names in `h` are pairwise different.
fn check_unique(h: &Vec<ColumnDef>) -> (r: bool)
    ensures
        r == names_unique(h@),
{
    let mut a: usize = 0;
    while a < h.len()
        invariant
            a <= h@.len(),
            forall|x: int, y: int| 0 <= x < a && 0 <= y < h@.len() && x != y ==> h@[x].name@ != h@[y].name@,
        decreases h@.len() - a,
    {
        let mut b: usize = 0;
        while b < h.len()
            invariant
                a < h@.len(),
                b <= h@.len(),
                forall|x: int, y: int| 0 <= x < a && 0 <= y < h@.len() && x != y ==> h@[x].name@ != h@[y].name@,
                forall|y: int| 0 <= y < b && a != y ==> h@[a as int].name@ != h@[y].name@,
            decreases h@.len() - b,
        {
            if a != b && h[a].name == h[b].name {
                return false;
            }
            b = b + 1;
        }
        a = a + 1;
    }
    true
}

/// A copy of a header.
fn copy_header(h: &Vec<ColumnDef>) -> (r: Vec<ColumnDef>)
    ensures
        r@ == h@,
{
    let mut r: Vec<ColumnDef> = Vec::new();
    let mut i: usize = 0;
    while i < h.len()
        invariant
            i <= h@.len(),
            r@ == h@.take(i as int),
        decreases h@.len() - i,
    {
        let c = ColumnDef { name: h[i].name.clone(), kind: h[i].kind };
        r.push(c);
        proof {
            assert(r@ =~= h@.take(i + 1));
        }
        i = i + 1;
    }
    proof {
        assert(r@ =~= h@);
    }
    r
}

/// Checks that every column that `p` names is in the header and that every literal reads as
/// its column's type.
pub fn check_predicate(h: &Vec<ColumnDef>, p: &Predicate) -> (r: Result<(), DbError>)
    requires
        names_unique(h@),
    ensures
        r is Err <==> predicate_error(h@, *p).is_some(),
        r is Err ==> predicate_error(h@, *p) == Some(r->Err_0),
    decreases p,
{
    match p {
        Predicate::Compare(col, _, lit) => match find_column(h, col) {
            None => Err(DbError::UnknownColumn),
            Some(j) => match parse_value(h[j].kind, lit) {
                None => Err(DbError::TypeMismatch),
                Some(_) => Ok(()),
            },
        },
        Predicate::And(a, b) | Predicate::Or(a, b) => {
            check_predicate(h, a)?;
            check_predicate(h, b)
        },
        Predicate::Not(a) => check_predicate(h, a),
    }
}

fn check_optional_predicate(h: &Vec<ColumnDef>, p: &Option<Predicate>) -> (r: Result<(), DbError>)
    requires
        names_unique(h@),
    ensures
        r is Err <==> optional_predicate_error(h@, *p).is_some(),
        r is Err ==> optional_predicate_error(h@, *p) == Some(r->Err_0),
{
    match p {
        None => Ok(()),
        Some(q) => check_predicate(h, q),
    }
}

fn op_test(op: CmpOp, c: i8) -> (r: bool)
    ensures
        r == op_holds(op, c as int),
{
    match op {
        CmpOp::Eq => c == 0,
        CmpOp::Ne => c != 0,
        CmpOp::Lt => c < 0,
        CmpOp::Le => c <= 0,
        CmpOp::Gt => c > 0,
        CmpOp::Ge => c >= 0,
    }
}

pub open spec fn as_ints(v: Seq<usize>) -> Seq<int> {
    Seq::new(v.len(), |i: int| v[i] as int)
}

/// Appends the characters of `s`.
fn push_str(out: &mut Vec<char>, s: &str)
    ensures
        final(out)@ == old(out)@ + s@,
{
    let mut cs = chars_of(s);
    out.append(&mut cs);
}

/// Appends `name type` for one column.
fn push_column_text(out: &mut Vec<char>, c: &ColumnDef)
    ensures
        final(out)@ == old(out)@ + column_text(*c),
{
    push_str(out, c.name.as_str());
    out.push(' ');
    match c.kind {
        ColumnType::Integer => {
            out.push('i');
            out.push('n');
            out.push('t');
        },
        ColumnType::FloatingPoint => {
            out.push('f');
            out.push('l');
            out.push('o');
            out.push('a');
            out.push('t');
        },
        ColumnType::FixedChar(n) => {
            out.push('c');
            out.push('h');
            out.push('a');
            out.push('r');
            out.push('(');
            push_nat(out, n as u64);
            out.push(')');
        },
        ColumnType::VarChar(n) => {
            out.push('v');
            out.push('a');
            out.push('r');
            out.push('c');
            out.push('h');
            out.push('a');
            out.push('r');
            out.push('(');
            push_nat(out, n as u64);
            out.push(')');
        },
    }
    assert(final(out)@ =~= old(out)@ + column_text(*c));
}

fn push_separator(out: &mut Vec<char>)
    ensures
        final(out)@ == old(out)@ + separator(),
{
    out.push(' ');
    out.push('|');
    out.push(' ');
    assert(final(out)@ =~= old(out)@ + separator());
}

/// The columns that a projection shows, in order; fails with `UnknownColumn` on a name that the
/// header lacks.
fn resolve_projection(h: &Vec<ColumnDef>, proj: &Option<Vec<String>>) -> (r: Result<Vec<usize>, DbError>)
    requires
        names_unique(h@),
    ensures
        r is Err <==> !projection_ok(h@, opt_view(*proj)),
        r is Err ==> r->Err_0 == DbError::UnknownColumn,
        r is Ok ==> as_ints(r->Ok_0@) == projection_indices(h@, opt_view(*proj)),
        r is Ok ==> forall|k: int| 0 <= k < r->Ok_0@.len() ==> (#[trigger] r->Ok_0@[k]) < h@.len(),
{
    let mut idx: Vec<usize> = Vec::new();
    match proj {
        None => {
            let mut j: usize = 0;
            while j < h.len()
                invariant
                    j <= h@.len(),
                    idx@.len() == j,
                    as_ints(idx@) == Seq::new(j as nat, |q: int| q),
                    forall|k: int| 0 <= k < idx@.len() ==> (#[trigger] idx@[k]) < h@.len(),
                decreases h@.len() - j,
            {
                let ghost prev = as_ints(idx@);
                idx.push(j);
                proof {
                    assert forall|q: int| 0 <= q < j + 1 implies #[trigger] as_ints(idx@)[q] == q by {
                        if q < j {
                            assert(prev[q] == q);
                            assert(as_ints(idx@)[q] == idx@[q] as int);
                        }
                    }
                    assert(as_ints(idx@) =~= Seq::new((j + 1) as nat, |q: int| q));
                }
                j = j + 1;
            }
            Ok(idx)
        },
        Some(names) => {
            let mut k: usize = 0;
            while k < names.len()
                invariant
                    names_unique(h@),
                    k <= names@.len(),
                    forall|q: int| 0 <= q < k ==> column_index(h@, #[trigger] names@[q]@).is_some(),
                    idx@.len() == k,
                    *proj == Some(*names),
                    as_ints(idx@) == Seq::new(k as nat, |q: int| column_index(h@, names@[q]@).unwrap()),
                    forall|q: int| 0 <= q < idx@.len() ==> (#[trigger] idx@[q]) < h@.len(),
                decreases names@.len() - k,
            {
                let ghost prev = as_ints(idx@);
                match find_column(h, &names[k]) {
                    None => {
                        assert(column_index(h@, names@[k as int]@).is_none());
                        assert(opt_view(*proj) == Some(names@));
                        return Err(DbError::UnknownColumn);
                    },
                    Some(j) => {
                        idx.push(j);
                    },
                }
                proof {
                    assert forall|q: int| 0 <= q < k + 1 implies #[trigger] as_ints(idx@)[q] == column_index(h@, names@[q]@).unwrap() by {
                        if q < k {
                            assert(prev[q] == column_index(h@, names@[q]@).unwrap());
                            assert(as_ints(idx@)[q] == idx@[q] as int);
                        }
                    }
                    assert(as_ints(idx@) =~= Seq::new((k + 1) as nat, |q: int| column_index(h@, names@[q]@).unwrap()));
                }
                k = k + 1;
            }
            Ok(idx)
        },
    }
}

/// Appends the header line of a select over the columns at `idx`.
fn push_header_line(out: &mut Vec<char>, h: &Vec<ColumnDef>, idx: &Vec<usize>)
    requires
        forall|k: int| 0 <= k < idx@.len() ==> (#[trigger] idx@[k]) < h@.len(),
    ensures
        final(out)@ == old(out)@ + header_line(h@, as_ints(idx@)),
{
    let ghost ii = as_ints(idx@);
    let mut t: usize = 0;
    assert(ii.take(0) =~= Seq::<int>::empty());
    while t < idx.len()
        invariant
            t <= idx@.len(),
            ii == as_ints(idx@),
            forall|k: int| 0 <= k < idx@.len() ==> (#[trigger] idx@[k]) < h@.len(),
            out@ == old(out)@ + header_line(h@, ii.take(t as int)),
        decreases idx@.len() - t,
    {
        proof {
            assert(ii.take(t + 1).drop_last() =~= ii.take(t as int));
            assert(ii.take(t + 1).last() == idx@[t as int] as int);
        }
        if t > 0 {
            push_separator(out);
        }
        push_column_text(out, &h[idx[t]]);
        proof {
            if t == 0 {
                assert(ii.take(1)[0] == idx@[0] as int);
            }
            assert(out@ =~= old(out)@ + header_line(h@, ii.take(t + 1)));
        }
        t = t + 1;
    }
    assert(ii.take(idx@.len() as int) =~= ii);
}

/// Reads a list of assignments into one slot per column: the value of the last assignment
/// naming the column, if any. Fails with the first error met in the list.
#[verifier::loop_isolation(false)]
fn resolve_assignments(h: &Vec<ColumnDef>, a: &Vec<(String, String)>) -> (r: Result<Vec<Option<Value>>, DbError>)
    requires
        names_unique(h@),
    ensures
        r is Err <==> assignment_error(h@, a@).is_some(),
        r is Err ==> assignment_error(h@, a@) == Some(r->Err_0),
        r is Ok ==> r->Ok_0@.len() == h@.len(),
        r is Ok ==> forall|j: int| 0 <= j < h@.len() ==> match assigned(h@, a@, j) {
            None => (#[trigger] r->Ok_0@[j]) is None,
            Some(lit) => r->Ok_0@[j] is Some && denotes(h@[j].kind, lit, r->Ok_0@[j]->Some_0)
                && fits(h@[j].kind, r->Ok_0@[j]->Some_0),
        },
{
    let mut slots: Vec<Option<Value>> = Vec::new();
    let mut j: usize = 0;
    while j < h.len()
        invariant
            j <= h@.len(),
            slots@.len() == j,
            forall|q: int| 0 <= q < j ==> (#[trigger] slots@[q]) is None,
        decreases h@.len() - j,
    {
        slots.push(None);
        j = j + 1;
    }
    let mut t: usize = 0;
    assert(a@.skip(0) =~= a@);
    assert(a@.take(0) =~= Seq::<(String, String)>::empty());
    while t < a.len()
        invariant
            t <= a@.len(),
            slots@.len() == h@.len(),
            assignment_error(h@, a@) == assignment_error(h@, a@.skip(t as int)),
            forall|q: int| 0 <= q < h@.len() ==> match assigned(h@, a@.take(t as int), q) {
                None => (#[trigger] slots@[q]) is None,
                Some(lit) => slots@[q] is Some && denotes(h@[q].kind, lit, slots@[q]->Some_0)
                    && fits(h@[q].kind, slots@[q]->Some_0),
            },
        decreases a@.len() - t,
    {
        proof {
            assert(a@.skip(t as int)[0] == a@[t as int]);
            assert(a@.skip(t as int).skip(1) =~= a@.skip(t + 1));
            assert(a@.take(t + 1).drop_last() =~= a@.take(t as int));
            assert(a@.take(t + 1).last() == a@[t as int]);
        }
        let col = match find_column(h, &a[t].0) {
            None => {
                return Err(DbError::UnknownColumn);
            },
            Some(c) => c,
        };
        let v = match parse_value(h[col].kind, &a[t].1) {
            None => {
                return Err(DbError::TypeMismatch);
            },
            Some(v) => v,
        };
        slots.set(col, Some(v));
        t = t + 1;
    }
    assert(a@.take(a@.len() as int) =~= a@);
    assert(a@.skip(a@.len() as int) =~= Seq::<(String, String)>::empty());
    Ok(slots)
}

/// The number of true entries.
fn count_hits(hit: &Vec<bool>) -> (r: usize)
    ensures
        r as nat == count_true(hit@),
        r <= hit@.len(),
{
    let mut c: usize = 0;
    let mut i: usize = 0;
    assert(hit@.take(0) =~= Seq::<bool>::empty());
    while i < hit.len()
        invariant
            i <= hit@.len(),
            c as nat == count_true(hit@.take(i as int)),
            c <= i,
        decreases hit@.len() - i,
    {
        assert(hit@.take(i + 1).drop_last() =~= hit@.take(i as int));
        if hit[i] {
            c = c + 1;
        }
        i = i + 1;
    }
    assert(hit@.take(hit@.len() as int) =~= hit@);
    c
}

/// The text `s`.
pub(crate) fn text_of(s: &str) -> (r: String)
    ensures
        r@ == s@,
{
    let cs = chars_of(s);
    string_of(&cs)
}

/// The text `a`, then `name`, then `b`.
pub(crate) fn text_between(a: &str, name: &String, b: &str) -> (r: String)
    ensures
        r@ == a@ + name@ + b@,
{
    let mut out = chars_of(a);
    let mut mid = chars_of(name.as_str());
    let mut tail = chars_of(b);
    out.append(&mut mid);
    out.append(&mut tail);
    string_of(&out)
}

/// The decimal digits of `n`, then `b`.
pub(crate) fn count_text(n: usize, b: &str) -> (r: String)
    ensures
        r@ == nat_text(n as nat) + b@,
{
    let mut out: Vec<char> = Vec::new();
    push_nat(&mut out, n as u64);
    let mut tail = chars_of(b);
    out.append(&mut tail);
    assert(out@ =~= nat_text(n as nat) + b@);
    string_of(&out)
}

impl Table {
    /// The header: column names and types, in order.
    pub closed spec fn header(&self) -> Seq<ColumnDef> {
        self.header@
    }

    /// The column store: one sequence of values per header entry.
    pub closed spec fn columns(&self) -> Seq<Seq<Value>> {
        Seq::new(self.data@.len(), |j: int| self.data@[j]@)
    }

    /// The number of rows.
    pub closed spec fn row_count(&self) -> nat {
        self.len as nat
    }

    /// The row at position `i`.
    pub open spec fn row(&self, i: int) -> Seq<Value> {
        row_of(self.columns(), i)
    }

    pub closed spec fn well_formed(&self) -> bool {
        &&& self.data@.len() == self.header@.len()
        &&& forall|j: int| 0 <= j < self.data@.len() ==> #[trigger] self.data@[j]@.len() == self.len
        &&& forall|j: int, i: int|
            0 <= j < self.data@.len() && 0 <= i < self.len ==> fits(self.header@[j].kind, #[trigger] self.data@[j]@[i])
        &&& names_unique(self.header@)
    }

    /// Every well-formed table has one column per header entry, every column holds exactly
    /// `row_count` values of its declared type, and no two columns share a name.
    pub proof fn lemma_shape(&self)
        requires
            self.well_formed(),
        ensures
            self.columns().len() == self.header().len(),
            forall|j: int| 0 <= j < self.columns().len() ==> #[trigger] self.columns()[j].len() == self.row_count(),
            forall|j: int, i: int|
                0 <= j < self.columns().len() && 0 <= i < self.row_count() ==> fits(self.header()[j].kind, #[trigger] self.columns()[j][i]),
            names_unique(self.header()),
    {
    }

    /// An empty table with the given header; refused where two columns share a name.
    pub fn new(header: Vec<ColumnDef>) -> (r: Result<Table, DbError>)
        ensures
            r is Err <==> !names_unique(header@),
            r is Err ==> r->Err_0 == DbError::AlreadyExists,
            r is Ok ==> ({
                let t = r->Ok_0;
                &&& t.well_formed()
                &&& t.header() == header@
                &&& t.row_count() == 0
                &&& t.columns() == Seq::new(header@.len(), |j: int| Seq::<Value>::empty())
            }),
    {
        if !check_unique(&header) {
            return Err(DbError::AlreadyExists);
        }
        let mut data: Vec<Vec<Value>> = Vec::new();
        let mut j: usize = 0;
        while j < header.len()
            invariant
                j <= header@.len(),
                data@.len() == j,
                forall|k: int| 0 <= k < j ==> (#[trigger] data@[k])@.len() == 0,
            decreases header@.len() - j,
        {
            data.push(Vec::new());
            j = j + 1;
        }
        let t = Table { header, data, len: 0 };
        assert forall|k: int| 0 <= k < t.data@.len() implies t.data@[k]@ =~= Seq::<Value>::empty() by {
            assert(t.data@[k]@.len() == 0);
        }
        assert(t.columns() =~= Seq::new(t.header@.len(), |j: int| Seq::<Value>::empty()));
        Ok(t)
    }

    /// Whether row `i` satisfies `p`.
    fn matches_row(&self, p: &Predicate, i: usize) -> (r: bool)
        requires
            self.well_formed(),
            predicate_error(self.header(), *p).is_none(),
            i < self.row_count(),
        ensures
            r == row_matches(self.header(), *p, self.row(i as int)),
        decreases p,
    {
        match p {
            Predicate::Compare(col, op, lit) => match find_column(&self.header, col) {
                None => false,
                Some(j) => match parse_value(self.header[j].kind, lit) {
                    None => false,
                    Some(v) => {
                        let cell = &self.data[j][i];
                        let c = compare_values(cell, &v);
                        proof {
                            assert(fits(self.header@[j as int].kind, self.data@[j as int]@[i as int]));
                            assert(self.row(i as int)[j as int] == *cell);
                            assert(value_cmp(*cell, v) == literal_cmp(*cell, lit@));
                        }
                        op_test(*op, c)
                    },
                },
            },
            Predicate::And(a, b) => self.matches_row(a, i) && self.matches_row(b, i),
            Predicate::Or(a, b) => self.matches_row(a, i) || self.matches_row(b, i),
            Predicate::Not(a) => !self.matches_row(a, i),
        }
    }

    /// For each row, whether it is chosen by `p`.
    fn row_hits(&self, p: &Option<Predicate>) -> (r: Vec<bool>)
        requires
            self.well_formed(),
            optional_predicate_error(self.header(), *p).is_none(),
        ensures
            r@ == hits(self.header(), *p, self.columns(), self.row_count()),
    {
        let mut r: Vec<bool> = Vec::new();
        let mut i: usize = 0;
        while i < self.len
            invariant
                self.well_formed(),
                optional_predicate_error(self.header(), *p).is_none(),
                i <= self.len,
                r@ == hits(self.header(), *p, self.columns(), i as nat),
            decreases self.len - i,
        {
            let b = match p {
                None => true,
                Some(q) => self.matches_row(q, i),
            };
            r.push(b);
            proof {
                assert(r@ =~= hits(self.header(), *p, self.columns(), (i + 1) as nat));
            }
            i = i + 1;
        }
        r
    }

    /// Appends one row, read from one literal per column. Fails with `Arity` where the number
    /// of literals is not the number of columns, else with `TypeMismatch` where a literal does
    /// not read as its column's type, else with `TableFull` where the row count is at its
    /// largest; the table is then unchanged.
    #[verifier::loop_isolation(false)]
    pub fn insert(&mut self, vals: &Vec<String>) -> (r: Result<(), DbError>)
        requires
            old(self).well_formed(),
        ensures
            final(self).well_formed(),
            r is Err <==> insert_error(old(self).header(), vals@).is_some() || old(self).row_count() >= usize::MAX,
            r is Err ==> *final(self) == *old(self) && Some(r->Err_0) == if insert_error(old(self).header(), vals@).is_some() {
                insert_error(old(self).header(), vals@)
            } else {
                Some(DbError::TableFull)
            },
            r is Ok ==> old(self).inserted(*final(self), vals@),
    {
        if vals.len() != self.header.len() {
            return Err(DbError::Arity);
        }
        let mut parsed: Vec<Value> = Vec::new();
        let mut j: usize = 0;
        while j < vals.len()
            invariant
                j <= vals@.len() == self.header@.len(),
                parsed@.len() == j,
                forall|k: int| 0 <= k < j ==> literal_ok(self.header@[k].kind, #[trigger] vals@[k]@),
                forall|k: int| 0 <= k < j ==> denotes(self.header@[k].kind, vals@[k]@, #[trigger] parsed@[k])
                    && fits(self.header@[k].kind, parsed@[k]),
            decreases vals@.len() - j,
        {
            match parse_value(self.header[j].kind, &vals[j]) {
                None => {
                    assert(!literal_ok(self.header@[j as int].kind, vals@[j as int]@));
                    return Err(DbError::TypeMismatch);
                },
                Some(v) => {
                    parsed.push(v);
                },
            }
            j = j + 1;
        }
        if self.len == usize::MAX {
            return Err(DbError::TableFull);
        }
        let ghost before = self.data@;
        let mut k: usize = 0;
        while k < parsed.len()
            invariant
                k <= parsed@.len() == self.data@.len() == before.len() == self.header@.len(),
                before == old(self).data@,
                self.len == old(self).len,
                self.header == old(self).header,
                forall|m: int| 0 <= m < k ==> #[trigger] self.data@[m]@ == before[m]@.push(parsed@[m]),
                forall|m: int| k <= m < before.len() ==> #[trigger] self.data@[m] == before[m],
            decreases parsed@.len() - k,
        {
            let v = copy_value(&parsed[k]);
            self.data[k].push(v);
            k = k + 1;
        }
        self.len = self.len + 1;
        proof {
            assert forall|m: int| 0 <= m < self.data@.len() implies
                #[trigger] self.columns()[m].drop_last() == old(self).columns()[m] by {
                assert(self.data@[m]@.drop_last() =~= before[m]@);
            }
            assert forall|m: int, i: int| 0 <= m < self.data@.len() && 0 <= i < self.len implies
                fits(self.header@[m].kind, #[trigger] self.data@[m]@[i]) by {
                assert(self.data@[m]@ == before[m]@.push(parsed@[m]));
                if i < self.len - 1 {
                    assert(self.data@[m]@[i] == before[m]@[i]);
                }
            }
            assert forall|m: int| 0 <= m < self.data@.len() implies #[trigger] self.data@[m]@.len() == self.len by {
                assert(self.data@[m]@ == before[m]@.push(parsed@[m]));
            }
        }
        Ok(())
    }

    /// Appends the given columns to the header, every existing row holding the type's zero value
    /// in each. Fails with `AlreadyExists`, leaving the table unchanged, where a name would then
    /// occur twice.
    #[verifier::loop_isolation(false)]
    pub fn alter_add(&mut self, cols: Vec<ColumnDef>) -> (r: Result<(), DbError>)
        requires
            old(self).well_formed(),
        ensures
            final(self).well_formed(),
            r is Err <==> !names_unique(old(self).header() + cols@),
            r is Err ==> r->Err_0 == DbError::AlreadyExists && *final(self) == *old(self),
            r is Ok ==> old(self).altered(*final(self), cols@),
    {
        let mut combined = copy_header(&self.header);
        let mut c: usize = 0;
        while c < cols.len()
            invariant
                c <= cols@.len(),
                combined@ == self.header@ + cols@.take(c as int),
            decreases cols@.len() - c,
        {
            combined.push(ColumnDef { name: cols[c].name.clone(), kind: cols[c].kind });
            proof {
                assert(combined@ =~= self.header@ + cols@.take(c + 1));
            }
            c = c + 1;
        }
        proof {
            assert(cols@.take(cols@.len() as int) =~= cols@);
        }
        if !check_unique(&combined) {
            return Err(DbError::AlreadyExists);
        }
        let ghost before = self.data@;
        let n = self.header.len();
        let mut j: usize = n;
        while j < combined.len()
            invariant
                n == before.len() == self.header@.len(),
                before == old(self).data@,
                self.len == old(self).len,
                self.header == old(self).header,
                n <= j <= combined@.len(),
                combined@ == self.header@ + cols@,
                self.data@.len() == j,
                forall|m: int| 0 <= m < n ==> #[trigger] self.data@[m] == before[m],
                forall|m: int| n <= m < j ==> (#[trigger] self.data@[m])@.len() == self.len,
                forall|m: int, i: int| n <= m < j && 0 <= i < self.len ==>
                    is_zero_value(combined@[m].kind, #[trigger] self.data@[m]@[i])
                    && fits(combined@[m].kind, self.data@[m]@[i]),
            decreases combined@.len() - j,
        {
            let kind = combined[j].kind;
            let mut col: Vec<Value> = Vec::new();
            let mut i: usize = 0;
            while i < self.len
                invariant
                    i <= self.len,
                    col@.len() == i,
                    forall|q: int| 0 <= q < i ==> is_zero_value(kind, #[trigger] col@[q]) && fits(kind, col@[q]),
                decreases self.len - i,
            {
                col.push(zero_value(kind));
                i = i + 1;
            }
            self.data.push(col);
            j = j + 1;
        }
        self.header = combined;
        Ok(())
    }

    /// Appends one data line: the values of row `i` at `idx`.
    fn push_row_line(&self, out: &mut Vec<char>, idx: &Vec<usize>, i: usize)
        requires
            self.well_formed(),
            i < self.row_count(),
            forall|k: int| 0 <= k < idx@.len() ==> (#[trigger] idx@[k]) < self.header().len(),
        ensures
            final(out)@ == old(out)@ + row_line(self.row(i as int), as_ints(idx@)),
    {
        let ghost ii = as_ints(idx@);
        let ghost row = self.row(i as int);
        let mut t: usize = 0;
        assert(ii.take(0) =~= Seq::<int>::empty());
        while t < idx.len()
            invariant
                self.well_formed(),
                i < self.row_count(),
                t <= idx@.len(),
                ii == as_ints(idx@),
                row == self.row(i as int),
                forall|k: int| 0 <= k < idx@.len() ==> (#[trigger] idx@[k]) < self.header().len(),
                out@ == old(out)@ + row_line(row, ii.take(t as int)),
            decreases idx@.len() - t,
        {
            proof {
                assert(ii.take(t + 1).drop_last() =~= ii.take(t as int));
                assert(ii.take(t + 1).last() == idx@[t as int] as int);
            }
            if t > 0 {
                push_separator(out);
            }
            let j = idx[t];
            push_value_text(out, &self.data[j][i]);
            proof {
                assert(row[j as int] == self.data@[j as int]@[i as int]);
                if t == 0 {
                    assert(ii.take(1)[0] == idx@[0] as int);
                }
                assert(out@ =~= old(out)@ + row_line(row, ii.take(t + 1)));
            }
            t = t + 1;
        }
        assert(ii.take(idx@.len() as int) =~= ii);
    }

    /// The text of a select: the header line of the projected columns, then one line per row that
    /// `pred` chooses (every row where it is absent), its projected values in projection order.
    /// Fails with `UnknownColumn` on a projected name that the header lacks, else with the first
    /// error in `pred`.
    pub fn select(&self, projection: &Option<Vec<String>>, pred: &Option<Predicate>) -> (r: Result<String, DbError>)
        requires
            self.well_formed(),
        ensures
            r is Err <==> (!projection_ok(self.header(), opt_view(*projection))
                || optional_predicate_error(self.header(), *pred).is_some()),
            r is Err ==> r->Err_0 == if !projection_ok(self.header(), opt_view(*projection)) {
                DbError::UnknownColumn
            } else {
                optional_predicate_error(self.header(), *pred).unwrap()
            },
            r is Ok ==> r->Ok_0@ == ({
                let idx = projection_indices(self.header(), opt_view(*projection));
                header_line(self.header(), idx) + rows_text(self.header(), *pred, self.columns(), idx, self.row_count())
            }),
    {
        let idx = resolve_projection(&self.header, projection)?;
        check_optional_predicate(&self.header, pred)?;
        let hit = self.row_hits(pred);
        let mut out: Vec<char> = Vec::new();
        push_header_line(&mut out, &self.header, &idx);
        let ghost head = out@;
        let ghost ii = as_ints(idx@);
        let mut i: usize = 0;
        while i < self.len
            invariant
                self.well_formed(),
                i <= self.len,
                ii == as_ints(idx@),
                hit@ == hits(self.header(), *pred, self.columns(), self.row_count()),
                forall|k: int| 0 <= k < idx@.len() ==> (#[trigger] idx@[k]) < self.header().len(),
                out@ == head + rows_text(self.header(), *pred, self.columns(), ii, i as nat),
            decreases self.len - i,
        {
            if hit[i] {
                out.push('\n');
                self.push_row_line(&mut out, &idx, i);
            }
            proof {
                assert(out@ =~= head + rows_text(self.header(), *pred, self.columns(), ii, (i + 1) as nat));
            }
            i = i + 1;
        }
        Ok(string_of(&out))
    }

    /// Sets, in every row that `pred` chooses (every row where it is absent), each assigned
    /// column to its literal's value; where a column is named twice the last assignment wins.
    /// Returns the number of rows chosen. Fails, leaving the table unchanged, with the first
    /// error in the assignments, else with the first error in `pred`.
    #[verifier::loop_isolation(false)]
    pub fn update(&mut self, assigns: &Vec<(String, String)>, pred: &Option<Predicate>) -> (r: Result<usize, DbError>)
        requires
            old(self).well_formed(),
        ensures
            final(self).well_formed(),
            r is Err <==> (assignment_error(old(self).header(), assigns@).is_some()
                || optional_predicate_error(old(self).header(), *pred).is_some()),
            r is Err ==> *final(self) == *old(self) && Some(r->Err_0) == if assignment_error(old(self).header(), assigns@).is_some() {
                assignment_error(old(self).header(), assigns@)
            } else {
                optional_predicate_error(old(self).header(), *pred)
            },
            r is Ok ==> old(self).updated(*final(self), assigns@, *pred, r->Ok_0),
    {
        let slots = resolve_assignments(&self.header, assigns)?;
        check_optional_predicate(&self.header, pred)?;
        let hit = self.row_hits(pred);
        let mut data: Vec<Vec<Value>> = Vec::new();
        let mut j: usize = 0;
        while j < self.header.len()
            invariant
                j <= self.header@.len(),
                data@.len() == j,
                forall|m: int| 0 <= m < j ==> (#[trigger] data@[m])@.len() == self.len,
                forall|m: int, i: int| 0 <= m < j && 0 <= i < self.len ==>
                    fits(self.header@[m].kind, #[trigger] data@[m]@[i])
                    && (#[trigger] data@[m]@[i] == if hit@[i] && slots@[m] is Some {
                        slots@[m]->Some_0
                    } else {
                        self.data@[m]@[i]
                    }),
            decreases self.header@.len() - j,
        {
            let mut col: Vec<Value> = Vec::new();
            let mut i: usize = 0;
            while i < self.len
                invariant
                    j < self.header@.len(),
                    i <= self.len,
                    col@.len() == i,
                    forall|q: int| 0 <= q < i ==> fits(self.header@[j as int].kind, #[trigger] col@[q])
                        && col@[q] == if hit@[q] && slots@[j as int] is Some {
                            slots@[j as int]->Some_0
                        } else {
                            self.data@[j as int]@[q]
                        },
                decreases self.len - i,
            {
                let v = if hit[i] && slots[j].is_some() {
                    match &slots[j] {
                        Some(s) => copy_value(s),
                        None => copy_value(&self.data[j][i]),
                    }
                } else {
                    copy_value(&self.data[j][i])
                };
                col.push(v);
                i = i + 1;
            }
            data.push(col);
            j = j + 1;
        }
        let n = count_hits(&hit);
        self.data = data;
        proof {
            assert forall|m: int, i: int| 0 <= m < self.data@.len() && 0 <= i < self.len implies
                fits(self.header@[m].kind, #[trigger] self.data@[m]@[i]) by {
                assert(fits(self.header@[m].kind, data@[m]@[i]));
            }
        }
        Ok(n)
    }

    /// Removes every row that `pred` chooses (every row where it is absent), keeping the others
    /// in order, and returns how many were removed. Fails, leaving the table unchanged, with the
    /// first error in `pred`.
    #[verifier::loop_isolation(false)]
    pub fn delete(&mut self, pred: &Option<Predicate>) -> (r: Result<usize, DbError>)
        requires
            old(self).well_formed(),
        ensures
            final(self).well_formed(),
            r is Err <==> optional_predicate_error(old(self).header(), *pred).is_some(),
            r is Err ==> *final(self) == *old(self) && Some(r->Err_0) == optional_predicate_error(old(self).header(), *pred),
            r is Ok ==> old(self).deleted(*final(self), *pred, r->Ok_0),
    {
        check_optional_predicate(&self.header, pred)?;
        let hit = self.row_hits(pred);
        let n = count_hits(&hit);
        let mut data: Vec<Vec<Value>> = Vec::new();
        let mut j: usize = 0;
        assert(hit@.take(hit@.len() as int) =~= hit@);
        while j < self.header.len()
            invariant
                j <= self.header@.len(),
                data@.len() == j,
                hit@.len() == self.len,
                n as nat == count_true(hit@),
                forall|m: int| 0 <= m < j ==> (#[trigger] data@[m])@ == keep(self.data@[m]@, hit@),
                forall|m: int| 0 <= m < j ==> (#[trigger] data@[m])@.len() == self.len - n,
                forall|m: int, i: int| 0 <= m < j && 0 <= i < self.len - n ==>
                    fits(self.header@[m].kind, #[trigger] data@[m]@[i]),
            decreases self.header@.len() - j,
        {
            let ghost src = self.data@[j as int]@;
            let mut col: Vec<Value> = Vec::new();
            let mut i: usize = 0;
            assert(src.take(0) =~= Seq::<Value>::empty());
            while i < self.len
                invariant
                    j < self.header@.len(),
                    i <= self.len,
                    src == self.data@[j as int]@,
                    src.len() == self.len,
                    col@ == keep(src.take(i as int), hit@.take(i as int)),
                    col@.len() == i - count_true(hit@.take(i as int)),
                    forall|q: int| 0 <= q < col@.len() ==> fits(self.header@[j as int].kind, #[trigger] col@[q]),
                decreases self.len - i,
            {
                proof {
                    assert(src.take(i + 1).drop_last() =~= src.take(i as int));
                    assert(hit@.take(i + 1).take(i as int) =~= hit@.take(i as int));
                    assert(hit@.take(i + 1).drop_last() =~= hit@.take(i as int));
                }
                if !hit[i] {
                    col.push(copy_value(&self.data[j][i]));
                }
                proof {
                    assert(col@ =~= keep(src.take(i + 1), hit@.take(i + 1)));
                }
                i = i + 1;
            }
            proof {
                assert(src.take(self.len as int) =~= src);
                assert(hit@.take(self.len as int) =~= hit@);
                assert(keep(src, hit@.take(src.len() as int)) == keep(src, hit@));
            }
            data.push(col);
            j = j + 1;
        }
        self.data = data;
        self.len = self.len - n;
        proof {
            assert forall|m: int| 0 <= m < self.data@.len() implies
                #[trigger] self.columns()[m] == keep(old(self).columns()[m], hit@) by {
                assert(self.columns()[m] == data@[m]@);
            }
        }
        Ok(n)
    }

    /// `new` is this table with one row appended, read from the literals `vals`.
    pub open spec fn inserted(self, new: Table, vals: Seq<String>) -> bool {
        &&& new.header() == self.header()
        &&& new.row_count() == self.row_count() + 1
        &&& new.columns().len() == self.columns().len()
        &&& forall|j: int| 0 <= j < self.columns().len() ==>
            #[trigger] new.columns()[j].drop_last() == self.columns()[j]
            && denotes(self.header()[j].kind, vals[j]@, new.columns()[j].last())
    }

    /// `new` is this table with the columns `cols` appended, holding zero values.
    pub open spec fn altered(self, new: Table, cols: Seq<ColumnDef>) -> bool {
        &&& new.header() == self.header() + cols
        &&& new.row_count() == self.row_count()
        &&& new.columns().len() == self.columns().len() + cols.len()
        &&& forall|j: int| 0 <= j < self.columns().len() ==>
            #[trigger] new.columns()[j] == self.columns()[j]
        &&& forall|j: int, i: int| self.columns().len() <= j < new.columns().len()
            && 0 <= i < new.row_count() ==>
            is_zero_value(new.header()[j].kind, #[trigger] new.columns()[j][i])
    }

    /// `new` is this table with the assignments applied to the rows that `pred` chooses, `n` of them.
    pub open spec fn updated(self, new: Table, assigns: Seq<(String, String)>, pred: Option<Predicate>, n: usize) -> bool {
        let hit = hits(self.header(), pred, self.columns(), self.row_count());
        &&& new.header() == self.header()
        &&& new.row_count() == self.row_count()
        &&& new.columns().len() == self.columns().len()
        &&& n as nat == count_true(hit)
        &&& forall|j: int, i: int| 0 <= j < self.columns().len() && 0 <= i < self.row_count() ==>
            match assigned(self.header(), assigns, j) {
                Some(lit) => if hit[i] {
                    denotes(self.header()[j].kind, lit, #[trigger] new.columns()[j][i])
                } else {
                    new.columns()[j][i] == self.columns()[j][i]
                },
                None => new.columns()[j][i] == self.columns()[j][i],
            }
    }

    /// `new` is this table without the rows that `pred` chooses, `n` of them.
    pub open spec fn deleted(self, new: Table, pred: Option<Predicate>, n: usize) -> bool {
        let hit = hits(self.header(), pred, self.columns(), self.row_count());
        &&& new.header() == self.header()
        &&& n as nat == count_true(hit)
        &&& new.row_count() == self.row_count() - count_true(hit)
        &&& new.columns().len() == self.columns().len()
        &&& forall|j: int| 0 <= j < self.columns().len() ==>
            #[trigger] new.columns()[j] == keep(self.columns()[j], hit)
    }

    /// What `op` on this table, called `name`, does: the table becomes `new` and the
    /// command's result is `r`.
    pub open spec fn outcome(self, name: String, op: TableOp, new: Table, r: Result<Option<String>, DbError>) -> bool {
        let h = self.header();
        match op {
            TableOp::Insert(vals) => match insert_error(h, vals@) {
                Some(e) => r == Err::<Option<String>, DbError>(e) && new == self,
                None => if self.row_count() >= usize::MAX {
                    r == Err::<Option<String>, DbError>(DbError::TableFull) && new == self
                } else {
                    &&& self.inserted(new, vals@)
                    &&& r is Ok && r->Ok_0 is Some
                    &&& r->Ok_0->Some_0@ == "1 new record inserted"@
                },
            },
            TableOp::Select(proj, pred) => {
                &&& new == self
                &&& if !projection_ok(h, opt_view(proj)) {
                    r == Err::<Option<String>, DbError>(DbError::UnknownColumn)
                } else if optional_predicate_error(h, pred).is_some() {
                    r == Err::<Option<String>, DbError>(optional_predicate_error(h, pred).unwrap())
                } else {
                    let idx = projection_indices(h, opt_view(proj));
                    &&& r is Ok && r->Ok_0 is Some
                    &&& r->Ok_0->Some_0@ == header_line(h, idx) + rows_text(h, pred, self.columns(), idx, self.row_count())
                }
            },
            TableOp::Update(assigns, pred) => if assignment_error(h, assigns@).is_some() {
                r == Err::<Option<String>, DbError>(assignment_error(h, assigns@).unwrap()) && new == self
            } else if optional_predicate_error(h, pred).is_some() {
                r == Err::<Option<String>, DbError>(optional_predicate_error(h, pred).unwrap()) && new == self
            } else {
                let n = count_true(hits(h, pred, self.columns(), self.row_count()));
                &&& self.updated(new, assigns@, pred, n as usize)
                &&& r is Ok && r->Ok_0 is Some
                &&& r->Ok_0->Some_0@ == nat_text(n) + " record modified"@
            },
            TableOp::Delete(pred) => if optional_predicate_error(h, pred).is_some() {
                r == Err::<Option<String>, DbError>(optional_predicate_error(h, pred).unwrap()) && new == self
            } else {
                let n = count_true(hits(h, pred, self.columns(), self.row_count()));
                &&& self.deleted(new, pred, n as usize)
                &&& r is Ok && r->Ok_0 is Some
                &&& r->Ok_0->Some_0@ == nat_text(n) + " record deleted"@
            },
            TableOp::AlterAdd(cols) => if !names_unique(h + cols@) {
                r == Err::<Option<String>, DbError>(DbError::AlreadyExists) && new == self
            } else {
                &&& self.altered(new, cols@)
                &&& r is Ok && r->Ok_0 is Some
                &&& r->Ok_0->Some_0@ == "Table "@ + name@ + " modified"@
            },
        }
    }

    /// Carries out `op` on this table, called `name`.
    pub fn apply(&mut self, name: &String, op: TableOp) -> (r: Result<Option<String>, DbError>)
        requires
            old(self).well_formed(),
        ensures
            final(self).well_formed(),
            old(self).outcome(*name, op, *final(self), r),
    {
        match op {
            TableOp::Insert(vals) => {
                self.insert(&vals)?;
                Ok(Some(text_of("1 new record inserted")))
            },
            TableOp::Select(proj, pred) => {
                let s = self.select(&proj, &pred)?;
                Ok(Some(s))
            },
            TableOp::Update(assigns, pred) => {
                let n = self.update(&assigns, &pred)?;
                Ok(Some(count_text(n, " record modified")))
            },
            TableOp::Delete(pred) => {
                let n = self.delete(&pred)?;
                Ok(Some(count_text(n, " record deleted")))
            },
            TableOp::AlterAdd(cols) => {
                self.alter_add(cols)?;
                Ok(Some(text_between("Table ", name, " modified")))
            },
        }
    }

    /// A table from its parts, as a snapshot holds them; `None` where they do not make a
    /// well-formed table (a column of another length than the row count, a value of another
    /// type than its column's, a name used twice).
    #[verifier::loop_isolation(false)]
    pub fn from_parts(header: Vec<ColumnDef>, data: Vec<Vec<Value>>, len: usize) -> (r: Option<Table>)
        ensures
            r is Some <==> parts_valid(header@, Seq::new(data@.len(), |j: int| data@[j]@), len as nat),
            r is Some ==> ({
                let t = r->Some_0;
                &&& t.well_formed()
                &&& t.header() == header@
                &&& t.columns() == Seq::new(data@.len(), |j: int| data@[j]@)
                &&& t.row_count() == len
            }),
    {
        let ghost cols = Seq::new(data@.len(), |j: int| data@[j]@);
        if data.len() != header.len() || !check_unique(&header) {
            return None;
        }
        let mut j: usize = 0;
        while j < data.len()
            invariant
                j <= data@.len() == header@.len(),
                cols == Seq::new(data@.len(), |q: int| data@[q]@),
                forall|q: int| 0 <= q < j ==> #[trigger] data@[q]@.len() == len,
                forall|q: int, i: int| 0 <= q < j && 0 <= i < len ==> fits(header@[q].kind, #[trigger] data@[q]@[i]),
            decreases data@.len() - j,
        {
            if data[j].len() != len {
                assert(cols[j as int].len() != len);
                return None;
            }
            let mut i: usize = 0;
            while i < len
                invariant
                    j < data@.len() == header@.len(),
                    data@[j as int]@.len() == len,
                    i <= len,
                    forall|q: int| 0 <= q < i ==> fits(header@[j as int].kind, #[trigger] data@[j as int]@[q]),
                decreases len - i,
            {
                if !value_fits(header[j].kind, &data[j][i]) {
                    assert(!fits(header@[j as int].kind, cols[j as int][i as int]));
                    return None;
                }
                i = i + 1;
            }
            j = j + 1;
        }
        let t = Table { header, data, len };
        assert(t.columns() =~= cols);
        Some(t)
    }

    /// The column store, as it is held.
    pub fn column_data(&self) -> (r: &Vec<Vec<Value>>)
        ensures
            Seq::new(r@.len(), |j: int| r@[j]@) == self.columns(),
    {
        &self.data
    }

    /// The parts of a well-formed table make it again: a snapshot that holds them loads back to a
    /// table with the same header, the same values in the same order and the same row count.
    pub proof fn lemma_parts_round_trip(&self)
        requires
            self.well_formed(),
        ensures
            parts_valid(self.header(), self.columns(), self.row_count()),
    {
    }

    /// Inserting a row into an empty table and selecting every column without a predicate gives
    /// the header line and exactly one data line: the inserted values, each in its canonical text.
    pub proof fn lemma_insert_then_select(
        self,
        name: String,
        vals: Seq<String>,
        t2: Table,
        t3: Table,
        r: Result<Option<String>, DbError>,
    )
        requires
            self.well_formed(),
            self.row_count() == 0,
            self.inserted(t2, vals),
            t2.well_formed(),
            t2.outcome(name, TableOp::Select(None, None), t3, r),
        ensures
            r is Ok && r->Ok_0 is Some,
            r->Ok_0->Some_0@ == header_line(self.header(), all_columns(self.header().len())) + seq!['\n']
                + row_line(t2.row(0), all_columns(self.header().len())),
            forall|j: int| 0 <= j < self.header().len() ==> denotes(self.header()[j].kind, vals[j]@, #[trigger] t2.row(0)[j]),
    {
        let h = self.header();
        assert(projection_ok(h, opt_view(None::<Vec<String>>)));
        assert(projection_indices(h, None) =~= all_columns(h.len()));
        assert forall|j: int| 0 <= j < h.len() implies denotes(h[j].kind, vals[j]@, #[trigger] t2.row(0)[j]) by {
            assert(t2.columns()[j].len() == 1);
            assert(t2.columns()[j].drop_last() == self.columns()[j]);
            assert(t2.columns()[j].last() == t2.columns()[j][0]);
        }
        let row = row_of(t2.columns(), 0);
        assert(rows_text(h, None, t2.columns(), all_columns(h.len()), 0) == Seq::<char>::empty());
        assert(rows_text(h, None, t2.columns(), all_columns(h.len()), 1) =~= seq!['\n'] + row_line(row, all_columns(h.len())));
    }

    /// Deleting, with a predicate that the only row satisfies, the row just inserted into an
    /// empty table leaves no row: a later select of every column shows the header line alone.
    pub proof fn lemma_delete_undoes_insert(
        self,
        name: String,
        vals: Seq<String>,
        pred: Predicate,
        t2: Table,
        t3: Table,
        r: Result<Option<String>, DbError>,
        t4: Table,
        r2: Result<Option<String>, DbError>,
    )
        requires
            self.well_formed(),
            self.row_count() == 0,
            self.inserted(t2, vals),
            t2.well_formed(),
            predicate_error(t2.header(), pred).is_none(),
            row_matches(t2.header(), pred, t2.row(0)),
            t2.outcome(name, TableOp::Delete(Some(pred)), t3, r),
            t3.outcome(name, TableOp::Select(None, None), t4, r2),
        ensures
            t3.row_count() == 0,
            r2 is Ok && r2->Ok_0 is Some,
            r2->Ok_0->Some_0@ == header_line(self.header(), all_columns(self.header().len())),
    {
        let h = t2.header();
        let hit = hits(h, Some(pred), t2.columns(), t2.row_count());
        assert(hit.drop_last() =~= Seq::<bool>::empty());
        assert(count_true(hit) == 1);
        assert(projection_ok(t3.header(), opt_view(None::<Vec<String>>)));
        assert(projection_indices(t3.header(), None) =~= all_columns(h.len()));
    }

    /// An update leaves every row that its predicate does not choose as it was.
    pub proof fn lemma_update_keeps_unchosen_rows(
        self,
        t2: Table,
        assigns: Seq<(String, String)>,
        pred: Option<Predicate>,
        n: usize,
        i: int,
    )
        requires
            self.well_formed(),
            self.updated(t2, assigns, pred, n),
            0 <= i < self.row_count(),
            !selected(self.header(), pred, self.row(i)),
        ensures
            t2.row(i) == self.row(i),
    {
        let hit = hits(self.header(), pred, self.columns(), self.row_count());
        assert(!hit[i]);
        assert forall|j: int| 0 <= j < self.columns().len() implies #[trigger] t2.columns()[j][i] == self.columns()[j][i] by {
            match assigned(self.header(), assigns, j) {
                Some(lit) => {},
                None => {},
            }
        }
        assert(t2.row(i) =~= self.row(i));
    }

    /// The header, as a new vector.
    pub fn header_defs(&self) -> (r: Vec<ColumnDef>)
        ensures
            r@ == self.header(),
    {
        copy_header(&self.header)
    }

    /// The number of rows.
    pub fn len(&self) -> (n: usize)
        ensures
            n as nat == self.row_count(),
    {
        self.len
    }
}

} // verus!
