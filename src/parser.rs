use vstd::prelude::*;
use crate::catalog::Command;
use crate::error::DbError;
use crate::table::{CmpOp, Predicate};
use crate::value::{chars_of, int_literal, parse_int, string_of, ColumnDef, ColumnType};

verus! {

/// One lexical unit of the command language.
pub enum Token {
    /// A name or keyword; `.exit` keeps its leading point.
    Word(Vec<char>),
    /// A number literal, with its sign.
    Number(Vec<char>),
    /// A quoted literal, without its quotes.
    Quoted(Vec<char>),
    /// One of `( ) , ; *`.
    Sym(char),
    /// A comparison operator.
    Op(CmpOp),
}

/// What a token is, with its text as a sequence.
pub enum Tok {
    Word(Seq<char>),
    Number(Seq<char>),
    Quoted(Seq<char>),
    Sym(char),
    Op(CmpOp),
}

pub open spec fn tok_view(t: Token) -> Tok {
    match t {
        Token::Word(w) => Tok::Word(w@),
        Token::Number(w) => Tok::Number(w@),
        Token::Quoted(w) => Tok::Quoted(w@),
        Token::Sym(c) => Tok::Sym(c),
        Token::Op(o) => Tok::Op(o),
    }
}

pub open spec fn toks_view(v: Seq<Token>) -> Seq<Tok> {
    Seq::new(v.len(), |i: int| tok_view(v[i]))
}

/// `x` in front of the sequence in `o`, if there is one.
pub open spec fn cons<X>(x: X, o: Option<Seq<X>>) -> Option<Seq<X>> {
    match o {
        Some(r) => Some(seq![x] + r),
        None => None,
    }
}

/// `a` in front of the sequence in `o`, if there is one.
pub open spec fn prefixed<X>(a: Seq<X>, o: Option<Seq<X>>) -> Option<Seq<X>> {
    match o {
        Some(r) => Some(a + r),
        None => None,
    }
}

proof fn lemma_prefixed_cons<X>(a: Seq<X>, x: X, o: Option<Seq<X>>)
    ensures
        prefixed(a, cons(x, o)) == prefixed(a.push(x), o),
{
    if let Some(r) = o {
        assert(a + (seq![x] + r) =~= a.push(x) + r);
    }
}

proof fn lemma_prefixed_empty<X>(o: Option<Seq<X>>)
    ensures
        prefixed(Seq::<X>::empty(), o) == o,
{
    if let Some(r) = o {
        assert(Seq::<X>::empty() + r =~= r);
    }
}

pub open spec fn is_letter(c: char) -> bool {
    ('a' <= c && c <= 'z') || ('A' <= c && c <= 'Z') || c == '_'
}

pub open spec fn is_dec(c: char) -> bool {
    '0' <= c && c <= '9'
}

pub open spec fn is_word_char(c: char) -> bool {
    is_letter(c) || is_dec(c)
}

/// Whether a run of the given kind goes on over `c`: 0 a word, 1 a number, 2 a comment,
/// 3 a quoted text.
pub open spec fn continues(c: char, kind: int) -> bool {
    if kind == 0 {
        is_word_char(c)
    } else if kind == 1 {
        is_dec(c) || c == '.'
    } else if kind == 2 {
        c != '\n'
    } else {
        c != '\''
    }
}

/// Where a run of the given kind that goes on at `j` stops.
pub open spec fn scan(s: Seq<char>, j: int, kind: int) -> int
    decreases s.len() - j,
{
    if j < 0 || j >= s.len() {
        j
    } else if continues(s[j], kind) {
        scan(s, j + 1, kind)
    } else {
        j
    }
}

/// The tokens of `s` from position `i` on; `None` on an unterminated quote or a character that
/// no token starts with. White space separates tokens and `--` starts a comment to the end of
/// the line.
pub open spec fn lex(s: Seq<char>, i: int) -> Option<Seq<Tok>>
    decreases s.len() - i,
{
    if i < 0 || i >= s.len() {
        Some(Seq::empty())
    } else {
        let c = s[i];
        let next = if i + 1 < s.len() { s[i + 1] } else { ' ' };
        if c == ' ' || c == '\t' || c == '\n' || c == '\r' {
            lex(s, i + 1)
        } else if c == '-' && next == '-' {
            let e = scan(s, i + 2, 2);
            if i < e <= s.len() { lex(s, e) } else { None }
        } else if is_letter(c) || (c == '.' && is_letter(next)) {
            let e = scan(s, i + 1, 0);
            if i < e <= s.len() { cons(Tok::Word(s.subrange(i, e)), lex(s, e)) } else { None }
        } else if is_dec(c) || (c == '-' && is_dec(next)) {
            let e = scan(s, i + 1, 1);
            if i < e <= s.len() { cons(Tok::Number(s.subrange(i, e)), lex(s, e)) } else { None }
        } else if c == '\'' {
            let e = scan(s, i + 1, 3);
            if e >= s.len() || e <= i {
                None
            } else {
                cons(Tok::Quoted(s.subrange(i + 1, e)), lex(s, e + 1))
            }
        } else if c == '(' || c == ')' || c == ',' || c == ';' || c == '*' {
            cons(Tok::Sym(c), lex(s, i + 1))
        } else if c == '=' {
            cons(Tok::Op(CmpOp::Eq), lex(s, i + 1))
        } else if c == '<' && next == '=' {
            cons(Tok::Op(CmpOp::Le), lex(s, i + 2))
        } else if c == '<' && next == '>' {
            cons(Tok::Op(CmpOp::Ne), lex(s, i + 2))
        } else if c == '<' {
            cons(Tok::Op(CmpOp::Lt), lex(s, i + 1))
        } else if c == '>' && next == '=' {
            cons(Tok::Op(CmpOp::Ge), lex(s, i + 2))
        } else if c == '>' {
            cons(Tok::Op(CmpOp::Gt), lex(s, i + 1))
        } else if c == '!' && next == '=' {
            cons(Tok::Op(CmpOp::Ne), lex(s, i + 2))
        } else {
            None
        }
    }
}

/// The tokens of a command text.
pub open spec fn tokens_of(s: Seq<char>) -> Option<Seq<Tok>> {
    lex(s, 0)
}

/// `c` in lower case, for ASCII letters.
pub open spec fn lower(c: char) -> char {
    if 'A' <= c && c <= 'Z' {
        ((c as u32 + 32) as u8) as char
    } else {
        c
    }
}

fn to_lower(c: char) -> (r: char)
    ensures
        r == lower(c),
{
    if 'A' <= c && c <= 'Z' {
        (c as u8 + 32) as char
    } else {
        c
    }
}

fn letter(c: char) -> (r: bool)
    ensures
        r == is_letter(c),
{
    ('a' <= c && c <= 'z') || ('A' <= c && c <= 'Z') || c == '_'
}

fn dec(c: char) -> (r: bool)
    ensures
        r == is_dec(c),
{
    '0' <= c && c <= '9'
}

fn goes_on(c: char, kind: u8) -> (r: bool)
    ensures
        r == continues(c, kind as int),
{
    if kind == 0 {
        letter(c) || dec(c)
    } else if kind == 1 {
        dec(c) || c == '.'
    } else if kind == 2 {
        c != '\n'
    } else {
        c != '\''
    }
}

/// Where a run of the given kind that goes on at `start` stops.
fn scan_run(s: &Vec<char>, start: usize, kind: u8) -> (e: usize)
    requires
        start <= s@.len(),
        kind <= 3,
    ensures
        e as int == scan(s@, start as int, kind as int),
        start <= e <= s@.len(),
{
    let mut i = start;
    while i < s.len() && goes_on(s[i], kind)
        invariant
            start <= i <= s@.len(),
            kind <= 3,
            scan(s@, start as int, kind as int) == scan(s@, i as int, kind as int),
        decreases s@.len() - i,
    {
        i = i + 1;
    }
    i
}

/// Splits command text into tokens (see `lex`). Fails with `ParseError` where `lex` gives none.
pub fn tokenize(text: &String) -> (r: Result<Vec<Token>, DbError>)
    ensures
        r is Ok <==> tokens_of(text@) is Some,
        r is Ok ==> toks_view(r->Ok_0@) == tokens_of(text@)->Some_0,
        r is Err ==> r->Err_0 == DbError::ParseError,
{
    let s = chars_of(text.as_str());
    let n = s.len();
    let mut out: Vec<Token> = Vec::new();
    let mut i: usize = 0;
    proof {
        lemma_prefixed_empty(lex(s@, 0));
    }
    while i < n
        invariant
            n == s@.len(),
            s@ == text@,
            i <= n,
            lex(s@, 0) == prefixed(toks_view(out@), lex(s@, i as int)),
        decreases n - i,
    {
        let c = s[i];
        let next = if i + 1 < n { s[i + 1] } else { ' ' };
        let ghost before = toks_view(out@);
        let tok: Token;
        let e: usize;
        if c == ' ' || c == '\t' || c == '\n' || c == '\r' {
            i = i + 1;
            continue;
        } else if c == '-' && next == '-' {
            i = scan_run(&s, i + 2, 2);
            continue;
        } else if letter(c) || (c == '.' && letter(next)) {
            e = scan_run(&s, i + 1, 0);
            tok = Token::Word(slice_of(&s, i, e));
        } else if dec(c) || (c == '-' && dec(next)) {
            e = scan_run(&s, i + 1, 1);
            tok = Token::Number(slice_of(&s, i, e));
        } else if c == '\'' {
            let q = scan_run(&s, i + 1, 3);
            if q >= n {
                return Err(DbError::ParseError);
            }
            tok = Token::Quoted(slice_of(&s, i + 1, q));
            e = q + 1;
        } else if c == '(' || c == ')' || c == ',' || c == ';' || c == '*' {
            tok = Token::Sym(c);
            e = i + 1;
        } else if c == '=' {
            tok = Token::Op(CmpOp::Eq);
            e = i + 1;
        } else if c == '<' && next == '=' {
            tok = Token::Op(CmpOp::Le);
            e = i + 2;
        } else if c == '<' && next == '>' {
            tok = Token::Op(CmpOp::Ne);
            e = i + 2;
        } else if c == '<' {
            tok = Token::Op(CmpOp::Lt);
            e = i + 1;
        } else if c == '>' && next == '=' {
            tok = Token::Op(CmpOp::Ge);
            e = i + 2;
        } else if c == '>' {
            tok = Token::Op(CmpOp::Gt);
            e = i + 1;
        } else if c == '!' && next == '=' {
            tok = Token::Op(CmpOp::Ne);
            e = i + 2;
        } else {
            return Err(DbError::ParseError);
        }
        proof {
            assert(lex(s@, i as int) == cons(tok_view(tok), lex(s@, e as int)));
            lemma_prefixed_cons(before, tok_view(tok), lex(s@, e as int));
        }
        out.push(tok);
        proof {
            assert(toks_view(out@) =~= before.push(tok_view(tok)));
        }
        i = e;
    }
    proof {
        assert(prefixed(toks_view(out@), Some(Seq::<Tok>::empty())) == Some(toks_view(out@) + Seq::<Tok>::empty()));
        assert(toks_view(out@) + Seq::<Tok>::empty() =~= toks_view(out@));
    }
    Ok(out)
}

/// The characters `s[lo..hi]`.
fn slice_of(s: &Vec<char>, lo: usize, hi: usize) -> (r: Vec<char>)
    requires
        lo <= hi <= s@.len(),
    ensures
        r@ == s@.subrange(lo as int, hi as int),
{
    let mut r: Vec<char> = Vec::new();
    let mut i: usize = lo;
    while i < hi
        invariant
            lo <= i <= hi <= s@.len(),
            r@ == s@.subrange(lo as int, i as int),
        decreases hi - i,
    {
        r.push(s[i]);
        assert(r@ =~= s@.subrange(lo as int, i + 1));
        i = i + 1;
    }
    r
}

/// The word `w` is the keyword `kw` (given in lower case), in any case.
pub open spec fn word_eq(w: Seq<char>, kw: Seq<char>) -> bool {
    w.len() == kw.len() && forall|i: int| 0 <= i < w.len() ==> lower(#[trigger] w[i]) == kw[i]
}

/// Token `p` is the keyword `kw`.
pub open spec fn kw_at(t: Seq<Tok>, p: int, kw: Seq<char>) -> bool {
    0 <= p < t.len() && t[p] is Word && word_eq(t[p]->Word_0, kw)
}

/// Token `p` is the symbol `c`.
pub open spec fn sym_at(t: Seq<Tok>, p: int, c: char) -> bool {
    0 <= p < t.len() && t[p] == Tok::Sym(c)
}

fn word_is(w: &Vec<char>, kw: &str) -> (r: bool)
    ensures
        r == word_eq(w@, kw@),
{
    let k = chars_of(kw);
    if w.len() != k.len() {
        return false;
    }
    let mut i: usize = 0;
    while i < w.len()
        invariant
            w@.len() == k@.len(),
            k@ == kw@,
            i <= w@.len(),
            forall|q: int| 0 <= q < i ==> lower(#[trigger] w@[q]) == kw@[q],
        decreases w@.len() - i,
    {
        if to_lower(w[i]) != k[i] {
            return false;
        }
        i = i + 1;
    }
    true
}

/// Whether token `pos` is the keyword `kw`.
fn at_kw(t: &Vec<Token>, pos: usize, kw: &str) -> (r: bool)
    ensures
        r == kw_at(toks_view(t@), pos as int, kw@),
        r ==> pos < t@.len() && pos < usize::MAX,
{
    if pos < t.len() {
        match &t[pos] {
            Token::Word(w) => word_is(w, kw),
            _ => false,
        }
    } else {
        false
    }
}

/// Whether token `pos` is the symbol `c`.
fn at_sym(t: &Vec<Token>, pos: usize, c: char) -> (r: bool)
    ensures
        r == sym_at(toks_view(t@), pos as int, c),
        r ==> pos < t@.len() && pos < usize::MAX,
{
    if pos < t.len() {
        match &t[pos] {
            Token::Sym(d) => *d == c,
            _ => false,
        }
    } else {
        false
    }
}

/// A predicate, with its texts as sequences.
pub enum PredView {
    Compare(Seq<char>, CmpOp, Seq<char>),
    And(Box<PredView>, Box<PredView>),
    Or(Box<PredView>, Box<PredView>),
    Not(Box<PredView>),
}

/// A command, with its texts as sequences.
pub enum CmdView {
    CreateDatabase(Seq<char>),
    DropDatabase(Seq<char>),
    Use(Seq<char>),
    CreateTable(Seq<char>, Seq<(Seq<char>, ColumnType)>),
    DropTable(Seq<char>),
    AlterAdd(Seq<char>, Seq<(Seq<char>, ColumnType)>),
    Insert(Seq<char>, Seq<Seq<char>>),
    Select(Seq<char>, Option<Seq<Seq<char>>>, Option<PredView>),
    Update(Seq<char>, Seq<(Seq<char>, Seq<char>)>, Option<PredView>),
    Delete(Seq<char>, Option<PredView>),
    Exit,
    Empty,
}

pub open spec fn pred_view(p: Predicate) -> PredView
    decreases p,
{
    match p {
        Predicate::Compare(c, o, l) => PredView::Compare(c@, o, l@),
        Predicate::And(a, b) => PredView::And(Box::new(pred_view(*a)), Box::new(pred_view(*b))),
        Predicate::Or(a, b) => PredView::Or(Box::new(pred_view(*a)), Box::new(pred_view(*b))),
        Predicate::Not(a) => PredView::Not(Box::new(pred_view(*a))),
    }
}

pub open spec fn opt_pred_view(p: Option<Predicate>) -> Option<PredView> {
    match p {
        Some(q) => Some(pred_view(q)),
        None => None,
    }
}

pub open spec fn col_view(c: ColumnDef) -> (Seq<char>, ColumnType) {
    (c.name@, c.kind)
}

pub open spec fn cols_view(v: Seq<ColumnDef>) -> Seq<(Seq<char>, ColumnType)> {
    Seq::new(v.len(), |i: int| col_view(v[i]))
}

pub open spec fn strs_view(v: Seq<String>) -> Seq<Seq<char>> {
    Seq::new(v.len(), |i: int| v[i]@)
}

pub open spec fn pairs_view(v: Seq<(String, String)>) -> Seq<(Seq<char>, Seq<char>)> {
    Seq::new(v.len(), |i: int| (v[i].0@, v[i].1@))
}

pub open spec fn cmd_view(c: Command) -> CmdView {
    match c {
        Command::CreateDatabase(n) => CmdView::CreateDatabase(n@),
        Command::DropDatabase(n) => CmdView::DropDatabase(n@),
        Command::Use(n) => CmdView::Use(n@),
        Command::CreateTable(n, d) => CmdView::CreateTable(n@, cols_view(d@)),
        Command::DropTable(n) => CmdView::DropTable(n@),
        Command::AlterAdd(n, d) => CmdView::AlterAdd(n@, cols_view(d@)),
        Command::Insert(n, v) => CmdView::Insert(n@, strs_view(v@)),
        Command::Select(n, pr, w) => CmdView::Select(
            n@,
            match pr {
                Some(v) => Some(strs_view(v@)),
                None => None,
            },
            opt_pred_view(w),
        ),
        Command::Update(n, a, w) => CmdView::Update(n@, pairs_view(a@), opt_pred_view(w)),
        Command::Delete(n, w) => CmdView::Delete(n@, opt_pred_view(w)),
        Command::Exit => CmdView::Exit,
        Command::Empty => CmdView::Empty,
    }
}

pub open spec fn cmds_view(v: Seq<Command>) -> Seq<CmdView> {
    Seq::new(v.len(), |i: int| cmd_view(v[i]))
}

/// A name at `p`.
pub open spec fn name_spec(t: Seq<Tok>, p: int) -> Option<(Seq<char>, int)> {
    if 0 <= p < t.len() && t[p] is Word {
        Some((t[p]->Word_0, p + 1))
    } else {
        None
    }
}

/// A literal at `p`: a number or a quoted text.
pub open spec fn literal_spec(t: Seq<Tok>, p: int) -> Option<(Seq<char>, int)> {
    if 0 <= p < t.len() {
        match t[p] {
            Tok::Number(w) => Some((w, p + 1)),
            Tok::Quoted(w) => Some((w, p + 1)),
            _ => None,
        }
    } else {
        None
    }
}

/// A comparison operator at `p`.
pub open spec fn op_spec(t: Seq<Tok>, p: int) -> Option<(CmpOp, int)> {
    if 0 <= p < t.len() && t[p] is Op {
        Some((t[p]->Op_0, p + 1))
    } else {
        None
    }
}

/// A size in parentheses at `p`, as after `CHAR` and `VARCHAR`.
pub open spec fn size_spec(t: Seq<Tok>, p: int) -> Option<(u32, int)> {
    if sym_at(t, p, '(') && 0 <= p + 1 < t.len() && t[p + 1] is Number && sym_at(t, p + 2, ')') {
        match int_literal(t[p + 1]->Number_0) {
            Some(v) => if 0 <= v <= u32::MAX {
                Some((v as u32, p + 3))
            } else {
                None
            },
            None => None,
        }
    } else {
        None
    }
}

/// A column definition at `p`: a name and a type.
pub open spec fn coldef_spec(t: Seq<Tok>, p: int) -> Option<((Seq<char>, ColumnType), int)> {
    match name_spec(t, p) {
        None => None,
        Some((n, q)) => if kw_at(t, q, "int"@) || kw_at(t, q, "integer"@) {
            Some(((n, ColumnType::Integer), q + 1))
        } else if kw_at(t, q, "float"@) {
            Some(((n, ColumnType::FloatingPoint), q + 1))
        } else if kw_at(t, q, "char"@) {
            match size_spec(t, q + 1) {
                Some((k, e)) => Some(((n, ColumnType::FixedChar(k)), e)),
                None => None,
            }
        } else if kw_at(t, q, "varchar"@) {
            match size_spec(t, q + 1) {
                Some((k, e)) => Some(((n, ColumnType::VarChar(k)), e)),
                None => None,
            }
        } else {
            None
        },
    }
}

/// Column definitions from `p` on, separated by commas, up to and with the closing `)`.
pub open spec fn coldefs_rest(t: Seq<Tok>, p: int) -> Option<(Seq<(Seq<char>, ColumnType)>, int)>
    decreases t.len() - p,
{
    if !(0 <= p <= t.len()) {
        None
    } else {
        match coldef_spec(t, p) {
            None => None,
            Some((d, q)) => if sym_at(t, q, ',') && p < q {
                match coldefs_rest(t, q + 1) {
                    Some((r, e)) => Some((seq![d] + r, e)),
                    None => None,
                }
            } else if sym_at(t, q, ')') {
                Some((seq![d], q + 1))
            } else {
                None
            },
        }
    }
}

/// Literals from `p` on, separated by commas, up to and with the closing `)`.
pub open spec fn literals_rest(t: Seq<Tok>, p: int) -> Option<(Seq<Seq<char>>, int)>
    decreases t.len() - p,
{
    if !(0 <= p <= t.len()) {
        None
    } else {
        match literal_spec(t, p) {
            None => None,
            Some((v, q)) => if sym_at(t, q, ',') && p < q {
                match literals_rest(t, q + 1) {
                    Some((r, e)) => Some((seq![v] + r, e)),
                    None => None,
                }
            } else if sym_at(t, q, ')') {
                Some((seq![v], q + 1))
            } else {
                None
            },
        }
    }
}

/// Names from `p` on, separated by commas.
pub open spec fn names_rest(t: Seq<Tok>, p: int) -> Option<(Seq<Seq<char>>, int)>
    decreases t.len() - p,
{
    if !(0 <= p <= t.len()) {
        None
    } else {
        match name_spec(t, p) {
            None => None,
            Some((n, q)) => if sym_at(t, q, ',') && p < q {
                match names_rest(t, q + 1) {
                    Some((r, e)) => Some((seq![n] + r, e)),
                    None => None,
                }
            } else {
                Some((seq![n], q))
            },
        }
    }
}

/// One assignment `column = literal` at `p`.
pub open spec fn assign_spec(t: Seq<Tok>, p: int) -> Option<((Seq<char>, Seq<char>), int)> {
    match name_spec(t, p) {
        None => None,
        Some((c, q)) => if 0 <= q < t.len() && t[q] == Tok::Op(CmpOp::Eq) {
            match literal_spec(t, q + 1) {
                Some((v, e)) => Some(((c, v), e)),
                None => None,
            }
        } else {
            None
        },
    }
}

/// Assignments from `p` on, separated by commas.
pub open spec fn assigns_rest(t: Seq<Tok>, p: int) -> Option<(Seq<(Seq<char>, Seq<char>)>, int)>
    decreases t.len() - p,
{
    if !(0 <= p <= t.len()) {
        None
    } else {
        match assign_spec(t, p) {
            None => None,
            Some((a, q)) => if sym_at(t, q, ',') && p < q {
                match assigns_rest(t, q + 1) {
                    Some((r, e)) => Some((seq![a] + r, e)),
                    None => None,
                }
            } else {
                Some((seq![a], q))
            },
        }
    }
}

/// A predicate at `p`: terms joined by `OR`, grouped from the left.
pub open spec fn or_spec(t: Seq<Tok>, p: int) -> Option<(PredView, int)>
    decreases t.len() - p, 3nat,
{
    if !(0 <= p <= t.len()) {
        None
    } else {
        match and_spec(t, p) {
            Some((a, q)) => if p < q <= t.len() {
                or_rest(t, q, a)
            } else {
                None
            },
            None => None,
        }
    }
}

/// Further `OR` terms at `p`, after the predicate `acc`.
pub open spec fn or_rest(t: Seq<Tok>, p: int, acc: PredView) -> Option<(PredView, int)>
    decreases t.len() - p, 4nat,
{
    if !(0 <= p <= t.len()) {
        None
    } else if kw_at(t, p, "or"@) {
        match and_spec(t, p + 1) {
            Some((b, q)) => if p < q <= t.len() {
                or_rest(t, q, PredView::Or(Box::new(acc), Box::new(b)))
            } else {
                None
            },
            None => None,
        }
    } else {
        Some((acc, p))
    }
}

/// Factors joined by `AND`, grouped from the left.
pub open spec fn and_spec(t: Seq<Tok>, p: int) -> Option<(PredView, int)>
    decreases t.len() - p, 2nat,
{
    if !(0 <= p <= t.len()) {
        None
    } else {
        match not_spec(t, p) {
            Some((a, q)) => if p < q <= t.len() {
                and_rest(t, q, a)
            } else {
                None
            },
            None => None,
        }
    }
}

/// Further `AND` factors at `p`, after the predicate `acc`.
pub open spec fn and_rest(t: Seq<Tok>, p: int, acc: PredView) -> Option<(PredView, int)>
    decreases t.len() - p, 2nat,
{
    if !(0 <= p <= t.len()) {
        None
    } else if kw_at(t, p, "and"@) {
        match not_spec(t, p + 1) {
            Some((b, q)) => if p < q <= t.len() {
                and_rest(t, q, PredView::And(Box::new(acc), Box::new(b)))
            } else {
                None
            },
            None => None,
        }
    } else {
        Some((acc, p))
    }
}

/// A factor with any number of leading `NOT`s.
pub open spec fn not_spec(t: Seq<Tok>, p: int) -> Option<(PredView, int)>
    decreases t.len() - p, 1nat,
{
    if !(0 <= p <= t.len()) {
        None
    } else if kw_at(t, p, "not"@) {
        match not_spec(t, p + 1) {
            Some((a, q)) => Some((PredView::Not(Box::new(a)), q)),
            None => None,
        }
    } else {
        atom_spec(t, p)
    }
}

/// A comparison `column op literal`, or a predicate in parentheses.
pub open spec fn atom_spec(t: Seq<Tok>, p: int) -> Option<(PredView, int)>
    decreases t.len() - p, 0nat,
{
    if !(0 <= p <= t.len()) {
        None
    } else if sym_at(t, p, '(') {
        match or_spec(t, p + 1) {
            Some((a, q)) => if sym_at(t, q, ')') {
                Some((a, q + 1))
            } else {
                None
            },
            None => None,
        }
    } else {
        match name_spec(t, p) {
            None => None,
            Some((c, q)) => match op_spec(t, q) {
                None => None,
                Some((o, q2)) => match literal_spec(t, q2) {
                    None => None,
                    Some((v, e)) => Some((PredView::Compare(c, o, v), e)),
                },
            },
        }
    }
}

/// An optional `WHERE predicate` at `p`.
pub open spec fn where_spec(t: Seq<Tok>, p: int) -> Option<(Option<PredView>, int)> {
    if kw_at(t, p, "where"@) {
        match or_spec(t, p + 1) {
            Some((a, q)) => Some((Some(a), q)),
            None => None,
        }
    } else {
        Some((None, p))
    }
}

/// The projection of a select at `p`: `*`, or names separated by commas.
pub open spec fn projection_spec(t: Seq<Tok>, p: int) -> Option<(Option<Seq<Seq<char>>>, int)> {
    if sym_at(t, p, '*') {
        Some((None, p + 1))
    } else {
        match names_rest(t, p) {
            Some((ns, q)) => Some((Some(ns), q)),
            None => None,
        }
    }
}

/// One command at `p`, without its closing `;`.
pub open spec fn command_spec(t: Seq<Tok>, p: int) -> Option<(CmdView, int)> {
    if kw_at(t, p, "create"@) {
        if kw_at(t, p + 1, "database"@) {
            match name_spec(t, p + 2) {
                Some((n, q)) => Some((CmdView::CreateDatabase(n), q)),
                None => None,
            }
        } else if kw_at(t, p + 1, "table"@) {
            match name_spec(t, p + 2) {
                Some((n, q)) => if sym_at(t, q, '(') {
                    match coldefs_rest(t, q + 1) {
                        Some((d, e)) => Some((CmdView::CreateTable(n, d), e)),
                        None => None,
                    }
                } else {
                    None
                },
                None => None,
            }
        } else {
            None
        }
    } else if kw_at(t, p, "drop"@) {
        if kw_at(t, p + 1, "database"@) {
            match name_spec(t, p + 2) {
                Some((n, q)) => Some((CmdView::DropDatabase(n), q)),
                None => None,
            }
        } else if kw_at(t, p + 1, "table"@) {
            match name_spec(t, p + 2) {
                Some((n, q)) => Some((CmdView::DropTable(n), q)),
                None => None,
            }
        } else {
            None
        }
    } else if kw_at(t, p, "use"@) {
        match name_spec(t, p + 1) {
            Some((n, q)) => Some((CmdView::Use(n), q)),
            None => None,
        }
    } else if kw_at(t, p, "alter"@) {
        if kw_at(t, p + 1, "table"@) {
            match name_spec(t, p + 2) {
                Some((n, q)) => if !kw_at(t, q, "add"@) {
                    None
                } else if sym_at(t, q + 1, '(') {
                    match coldefs_rest(t, q + 2) {
                        Some((d, e)) => Some((CmdView::AlterAdd(n, d), e)),
                        None => None,
                    }
                } else {
                    match coldef_spec(t, q + 1) {
                        Some((d, e)) => Some((CmdView::AlterAdd(n, seq![d]), e)),
                        None => None,
                    }
                },
                None => None,
            }
        } else {
            None
        }
    } else if kw_at(t, p, "insert"@) {
        if kw_at(t, p + 1, "into"@) {
            match name_spec(t, p + 2) {
                Some((n, q)) => if kw_at(t, q, "values"@) && sym_at(t, q + 1, '(') {
                    match literals_rest(t, q + 2) {
                        Some((v, e)) => Some((CmdView::Insert(n, v), e)),
                        None => None,
                    }
                } else {
                    None
                },
                None => None,
            }
        } else {
            None
        }
    } else if kw_at(t, p, "select"@) {
        match projection_spec(t, p + 1) {
            Some((pr, q)) => if kw_at(t, q, "from"@) {
                match name_spec(t, q + 1) {
                    Some((n, r)) => match where_spec(t, r) {
                        Some((w, e)) => Some((CmdView::Select(n, pr, w), e)),
                        None => None,
                    },
                    None => None,
                }
            } else {
                None
            },
            None => None,
        }
    } else if kw_at(t, p, "update"@) {
        match name_spec(t, p + 1) {
            Some((n, q)) => if kw_at(t, q, "set"@) {
                match assigns_rest(t, q + 1) {
                    Some((a, r)) => match where_spec(t, r) {
                        Some((w, e)) => Some((CmdView::Update(n, a, w), e)),
                        None => None,
                    },
                    None => None,
                }
            } else {
                None
            },
            None => None,
        }
    } else if kw_at(t, p, "delete"@) {
        if kw_at(t, p + 1, "from"@) {
            match name_spec(t, p + 2) {
                Some((n, q)) => match where_spec(t, q) {
                    Some((w, e)) => Some((CmdView::Delete(n, w), e)),
                    None => None,
                },
                None => None,
            }
        } else {
            None
        }
    } else if kw_at(t, p, ".exit"@) {
        Some((CmdView::Exit, p + 1))
    } else {
        None
    }
}

/// The commands of the tokens from `p` on: each closed by `;`, where the last one and `.exit`
/// may go without it; a bare `;` is the empty command.
pub open spec fn script_from(t: Seq<Tok>, p: int) -> Option<Seq<CmdView>>
    decreases t.len() - p,
{
    if !(0 <= p < t.len()) {
        Some(Seq::empty())
    } else if sym_at(t, p, ';') {
        cons(CmdView::Empty, script_from(t, p + 1))
    } else {
        match command_spec(t, p) {
            None => None,
            Some((c, q)) => if !(p < q <= t.len()) {
                None
            } else if sym_at(t, q, ';') {
                cons(c, script_from(t, q + 1))
            } else if q == t.len() || c is Exit {
                cons(c, script_from(t, q))
            } else {
                None
            },
        }
    }
}

/// The commands of a command text, where it reads as commands.
pub open spec fn script_of(s: Seq<char>) -> Option<Seq<CmdView>> {
    match tokens_of(s) {
        Some(t) => script_from(t, 0),
        None => None,
    }
}


/// A name at `pos`.
fn name_at(t: &Vec<Token>, pos: usize) -> (r: Result<(String, usize), DbError>)
    ensures
        r is Ok <==> name_spec(toks_view(t@), pos as int) is Some,
        r is Ok ==> (r->Ok_0.0@, r->Ok_0.1 as int) == name_spec(toks_view(t@), pos as int)->Some_0,
{
    if pos < t.len() {
        match &t[pos] {
            Token::Word(w) => Ok((string_of(w), pos + 1)),
            _ => Err(DbError::ParseError),
        }
    } else {
        Err(DbError::ParseError)
    }
}

/// A literal at `pos`: a number or a quoted text.
fn literal_at(t: &Vec<Token>, pos: usize) -> (r: Result<(String, usize), DbError>)
    ensures
        r is Ok <==> literal_spec(toks_view(t@), pos as int) is Some,
        r is Ok ==> (r->Ok_0.0@, r->Ok_0.1 as int) == literal_spec(toks_view(t@), pos as int)->Some_0,
{
    if pos < t.len() {
        match &t[pos] {
            Token::Number(w) | Token::Quoted(w) => Ok((string_of(w), pos + 1)),
            _ => Err(DbError::ParseError),
        }
    } else {
        Err(DbError::ParseError)
    }
}

/// A comparison operator at `pos`.
fn op_at(t: &Vec<Token>, pos: usize) -> (r: Result<(CmpOp, usize), DbError>)
    ensures
        r is Ok <==> op_spec(toks_view(t@), pos as int) is Some,
        r is Ok ==> (r->Ok_0.0, r->Ok_0.1 as int) == op_spec(toks_view(t@), pos as int)->Some_0,
{
    if pos < t.len() {
        match &t[pos] {
            Token::Op(o) => Ok((*o, pos + 1)),
            _ => Err(DbError::ParseError),
        }
    } else {
        Err(DbError::ParseError)
    }
}

/// A size in parentheses at `pos`.
fn size_at(t: &Vec<Token>, pos: usize) -> (r: Result<(u32, usize), DbError>)
    ensures
        r is Ok <==> size_spec(toks_view(t@), pos as int) is Some,
        r is Ok ==> (r->Ok_0.0, r->Ok_0.1 as int) == size_spec(toks_view(t@), pos as int)->Some_0,
{
    if !at_sym(t, pos, '(') || pos + 1 >= t.len() || !at_sym(t, pos + 2, ')') {
        return Err(DbError::ParseError);
    }
    match &t[pos + 1] {
        Token::Number(w) => match parse_int(w) {
            Some(v) => {
                if 0 <= v && v <= 4294967295 {
                    Ok((v as u32, pos + 3))
                } else {
                    Err(DbError::ParseError)
                }
            },
            None => Err(DbError::ParseError),
        },
        _ => Err(DbError::ParseError),
    }
}

/// A column definition at `pos`.
fn coldef_at(t: &Vec<Token>, pos: usize) -> (r: Result<(ColumnDef, usize), DbError>)
    ensures
        r is Ok <==> coldef_spec(toks_view(t@), pos as int) is Some,
        r is Ok ==> (col_view(r->Ok_0.0), r->Ok_0.1 as int) == coldef_spec(toks_view(t@), pos as int)->Some_0,
{
    let (name, q) = name_at(t, pos)?;
    if at_kw(t, q, "int") || at_kw(t, q, "integer") {
        Ok((ColumnDef { name, kind: ColumnType::Integer }, q + 1))
    } else if at_kw(t, q, "float") {
        Ok((ColumnDef { name, kind: ColumnType::FloatingPoint }, q + 1))
    } else if at_kw(t, q, "char") {
        let (k, e) = size_at(t, q + 1)?;
        Ok((ColumnDef { name, kind: ColumnType::FixedChar(k) }, e))
    } else if at_kw(t, q, "varchar") {
        let (k, e) = size_at(t, q + 1)?;
        Ok((ColumnDef { name, kind: ColumnType::VarChar(k) }, e))
    } else {
        Err(DbError::ParseError)
    }
}

/// Column definitions from `pos` on, up to and with the closing `)`.
fn coldefs_rest_at(t: &Vec<Token>, pos: usize) -> (r: Result<(Vec<ColumnDef>, usize), DbError>)
    requires
        pos <= t@.len(),
    ensures
        r is Ok <==> coldefs_rest(toks_view(t@), pos as int) is Some,
        r is Ok ==> (cols_view(r->Ok_0.0@), r->Ok_0.1 as int) == coldefs_rest(toks_view(t@), pos as int)->Some_0,
    decreases t@.len() - pos,
{
    let (d, q) = coldef_at(t, pos)?;
    let ghost dv = col_view(d);
    if at_sym(t, q, ',') && pos < q {
        let (mut rest, e) = coldefs_rest_at(t, q + 1)?;
        let ghost before = rest@;
        rest.insert(0, d);
        assert(cols_view(rest@) =~= seq![dv] + cols_view(before));
        Ok((rest, e))
    } else if at_sym(t, q, ')') {
        let mut v: Vec<ColumnDef> = Vec::new();
        v.push(d);
        assert(cols_view(v@) =~= seq![dv]);
        Ok((v, q + 1))
    } else {
        Err(DbError::ParseError)
    }
}

/// Literals from `pos` on, up to and with the closing `)`.
fn literals_rest_at(t: &Vec<Token>, pos: usize) -> (r: Result<(Vec<String>, usize), DbError>)
    requires
        pos <= t@.len(),
    ensures
        r is Ok <==> literals_rest(toks_view(t@), pos as int) is Some,
        r is Ok ==> (strs_view(r->Ok_0.0@), r->Ok_0.1 as int) == literals_rest(toks_view(t@), pos as int)->Some_0,
    decreases t@.len() - pos,
{
    let (v, q) = literal_at(t, pos)?;
    let ghost vv = v@;
    if at_sym(t, q, ',') && pos < q {
        let (mut rest, e) = literals_rest_at(t, q + 1)?;
        let ghost before = rest@;
        rest.insert(0, v);
        assert(strs_view(rest@) =~= seq![vv] + strs_view(before));
        Ok((rest, e))
    } else if at_sym(t, q, ')') {
        let mut out: Vec<String> = Vec::new();
        out.push(v);
        assert(strs_view(out@) =~= seq![vv]);
        Ok((out, q + 1))
    } else {
        Err(DbError::ParseError)
    }
}

/// Names from `pos` on, separated by commas.
fn names_rest_at(t: &Vec<Token>, pos: usize) -> (r: Result<(Vec<String>, usize), DbError>)
    requires
        pos <= t@.len(),
    ensures
        r is Ok <==> names_rest(toks_view(t@), pos as int) is Some,
        r is Ok ==> (strs_view(r->Ok_0.0@), r->Ok_0.1 as int) == names_rest(toks_view(t@), pos as int)->Some_0,
    decreases t@.len() - pos,
{
    let (n, q) = name_at(t, pos)?;
    let ghost nv = n@;
    if at_sym(t, q, ',') && pos < q {
        let (mut rest, e) = names_rest_at(t, q + 1)?;
        let ghost before = rest@;
        rest.insert(0, n);
        assert(strs_view(rest@) =~= seq![nv] + strs_view(before));
        Ok((rest, e))
    } else {
        let mut out: Vec<String> = Vec::new();
        out.push(n);
        assert(strs_view(out@) =~= seq![nv]);
        Ok((out, q))
    }
}

/// One assignment `column = literal` at `pos`.
fn assign_at(t: &Vec<Token>, pos: usize) -> (r: Result<((String, String), usize), DbError>)
    ensures
        r is Ok <==> assign_spec(toks_view(t@), pos as int) is Some,
        r is Ok ==> ((r->Ok_0.0.0@, r->Ok_0.0.1@), r->Ok_0.1 as int) == assign_spec(toks_view(t@), pos as int)->Some_0,
{
    let (c, q) = name_at(t, pos)?;
    if q >= t.len() {
        return Err(DbError::ParseError);
    }
    match &t[q] {
        Token::Op(CmpOp::Eq) => {
            let (v, e) = literal_at(t, q + 1)?;
            Ok(((c, v), e))
        },
        _ => Err(DbError::ParseError),
    }
}

/// Assignments from `pos` on, separated by commas.
fn assigns_rest_at(t: &Vec<Token>, pos: usize) -> (r: Result<(Vec<(String, String)>, usize), DbError>)
    requires
        pos <= t@.len(),
    ensures
        r is Ok <==> assigns_rest(toks_view(t@), pos as int) is Some,
        r is Ok ==> (pairs_view(r->Ok_0.0@), r->Ok_0.1 as int) == assigns_rest(toks_view(t@), pos as int)->Some_0,
    decreases t@.len() - pos,
{
    let (a, q) = assign_at(t, pos)?;
    let ghost av = (a.0@, a.1@);
    if at_sym(t, q, ',') && pos < q {
        let (mut rest, e) = assigns_rest_at(t, q + 1)?;
        let ghost before = rest@;
        rest.insert(0, a);
        assert(pairs_view(rest@) =~= seq![av] + pairs_view(before));
        Ok((rest, e))
    } else {
        let mut out: Vec<(String, String)> = Vec::new();
        out.push(a);
        assert(pairs_view(out@) =~= seq![av]);
        Ok((out, q))
    }
}

/// A predicate at `pos` (see `or_spec`).
fn or_at(t: &Vec<Token>, pos: usize) -> (r: Result<(Predicate, usize), DbError>)
    requires
        pos <= t@.len(),
    ensures
        r is Ok <==> or_spec(toks_view(t@), pos as int) is Some,
        r is Ok ==> (pred_view(r->Ok_0.0), r->Ok_0.1 as int) == or_spec(toks_view(t@), pos as int)->Some_0,
    decreases t@.len() - pos, 3nat,
{
    let (a, q) = and_at(t, pos)?;
    if !(pos < q && q <= t.len()) {
        return Err(DbError::ParseError);
    }
    or_rest_at(t, q, a)
}

fn or_rest_at(t: &Vec<Token>, pos: usize, acc: Predicate) -> (r: Result<(Predicate, usize), DbError>)
    requires
        pos <= t@.len(),
    ensures
        r is Ok <==> or_rest(toks_view(t@), pos as int, pred_view(acc)) is Some,
        r is Ok ==> (pred_view(r->Ok_0.0), r->Ok_0.1 as int) == or_rest(toks_view(t@), pos as int, pred_view(acc))->Some_0,
    decreases t@.len() - pos, 4nat,
{
    if at_kw(t, pos, "or") {
        let (b, q) = and_at(t, pos + 1)?;
        if !(pos < q && q <= t.len()) {
            return Err(DbError::ParseError);
        }
        or_rest_at(t, q, Predicate::Or(Box::new(acc), Box::new(b)))
    } else {
        Ok((acc, pos))
    }
}

fn and_at(t: &Vec<Token>, pos: usize) -> (r: Result<(Predicate, usize), DbError>)
    requires
        pos <= t@.len(),
    ensures
        r is Ok <==> and_spec(toks_view(t@), pos as int) is Some,
        r is Ok ==> (pred_view(r->Ok_0.0), r->Ok_0.1 as int) == and_spec(toks_view(t@), pos as int)->Some_0,
    decreases t@.len() - pos, 2nat,
{
    let (a, q) = not_at(t, pos)?;
    if !(pos < q && q <= t.len()) {
        return Err(DbError::ParseError);
    }
    and_rest_at(t, q, a)
}

fn and_rest_at(t: &Vec<Token>, pos: usize, acc: Predicate) -> (r: Result<(Predicate, usize), DbError>)
    requires
        pos <= t@.len(),
    ensures
        r is Ok <==> and_rest(toks_view(t@), pos as int, pred_view(acc)) is Some,
        r is Ok ==> (pred_view(r->Ok_0.0), r->Ok_0.1 as int) == and_rest(toks_view(t@), pos as int, pred_view(acc))->Some_0,
    decreases t@.len() - pos, 2nat,
{
    if at_kw(t, pos, "and") {
        let (b, q) = not_at(t, pos + 1)?;
        if !(pos < q && q <= t.len()) {
            return Err(DbError::ParseError);
        }
        and_rest_at(t, q, Predicate::And(Box::new(acc), Box::new(b)))
    } else {
        Ok((acc, pos))
    }
}

fn not_at(t: &Vec<Token>, pos: usize) -> (r: Result<(Predicate, usize), DbError>)
    requires
        pos <= t@.len(),
    ensures
        r is Ok <==> not_spec(toks_view(t@), pos as int) is Some,
        r is Ok ==> (pred_view(r->Ok_0.0), r->Ok_0.1 as int) == not_spec(toks_view(t@), pos as int)->Some_0,
    decreases t@.len() - pos, 1nat,
{
    if at_kw(t, pos, "not") {
        let (a, q) = not_at(t, pos + 1)?;
        Ok((Predicate::Not(Box::new(a)), q))
    } else {
        atom_at(t, pos)
    }
}

fn atom_at(t: &Vec<Token>, pos: usize) -> (r: Result<(Predicate, usize), DbError>)
    requires
        pos <= t@.len(),
    ensures
        r is Ok <==> atom_spec(toks_view(t@), pos as int) is Some,
        r is Ok ==> (pred_view(r->Ok_0.0), r->Ok_0.1 as int) == atom_spec(toks_view(t@), pos as int)->Some_0,
    decreases t@.len() - pos, 0nat,
{
    if at_sym(t, pos, '(') {
        let (a, q) = or_at(t, pos + 1)?;
        if at_sym(t, q, ')') {
            Ok((a, q + 1))
        } else {
            Err(DbError::ParseError)
        }
    } else {
        let (c, q) = name_at(t, pos)?;
        let (o, q2) = op_at(t, q)?;
        let (v, e) = literal_at(t, q2)?;
        Ok((Predicate::Compare(c, o, v), e))
    }
}

fn where_at(t: &Vec<Token>, pos: usize) -> (r: Result<(Option<Predicate>, usize), DbError>)
    ensures
        r is Ok <==> where_spec(toks_view(t@), pos as int) is Some,
        r is Ok ==> (opt_pred_view(r->Ok_0.0), r->Ok_0.1 as int) == where_spec(toks_view(t@), pos as int)->Some_0,
{
    if at_kw(t, pos, "where") {
        let (a, q) = or_at(t, pos + 1)?;
        Ok((Some(a), q))
    } else {
        Ok((None, pos))
    }
}

fn projection_at(t: &Vec<Token>, pos: usize) -> (r: Result<(Option<Vec<String>>, usize), DbError>)
    requires
        pos <= t@.len(),
    ensures
        r is Ok <==> projection_spec(toks_view(t@), pos as int) is Some,
        r is Ok ==> ((match r->Ok_0.0 {
            Some(v) => Some(strs_view(v@)),
            None => None,
        }), r->Ok_0.1 as int) == projection_spec(toks_view(t@), pos as int)->Some_0,
{
    if at_sym(t, pos, '*') {
        Ok((None, pos + 1))
    } else {
        let (ns, q) = names_rest_at(t, pos)?;
        Ok((Some(ns), q))
    }
}


/// One command at `pos`, without its closing `;` (see `command_spec`).
fn command_at(t: &Vec<Token>, pos: usize) -> (r: Result<(Command, usize), DbError>)
    ensures
        r is Ok <==> command_spec(toks_view(t@), pos as int) is Some,
        r is Ok ==> (cmd_view(r->Ok_0.0), r->Ok_0.1 as int) == command_spec(toks_view(t@), pos as int)->Some_0,
{
    if at_kw(t, pos, "create") {
        if at_kw(t, pos + 1, "database") {
            let (n, q) = name_at(t, pos + 2)?;
            Ok((Command::CreateDatabase(n), q))
        } else if at_kw(t, pos + 1, "table") {
            let (n, q) = name_at(t, pos + 2)?;
            if !at_sym(t, q, '(') {
                return Err(DbError::ParseError);
            }
            let (d, e) = coldefs_rest_at(t, q + 1)?;
            Ok((Command::CreateTable(n, d), e))
        } else {
            Err(DbError::ParseError)
        }
    } else if at_kw(t, pos, "drop") {
        if at_kw(t, pos + 1, "database") {
            let (n, q) = name_at(t, pos + 2)?;
            Ok((Command::DropDatabase(n), q))
        } else if at_kw(t, pos + 1, "table") {
            let (n, q) = name_at(t, pos + 2)?;
            Ok((Command::DropTable(n), q))
        } else {
            Err(DbError::ParseError)
        }
    } else if at_kw(t, pos, "use") {
        let (n, q) = name_at(t, pos + 1)?;
        Ok((Command::Use(n), q))
    } else if at_kw(t, pos, "alter") {
        if !at_kw(t, pos + 1, "table") {
            return Err(DbError::ParseError);
        }
        let (n, q) = name_at(t, pos + 2)?;
        if !at_kw(t, q, "add") {
            return Err(DbError::ParseError);
        }
        if at_sym(t, q + 1, '(') {
            let (d, e) = coldefs_rest_at(t, q + 2)?;
            Ok((Command::AlterAdd(n, d), e))
        } else {
            let (d, e) = coldef_at(t, q + 1)?;
            let ghost dv = col_view(d);
            let mut v: Vec<ColumnDef> = Vec::new();
            v.push(d);
            assert(cols_view(v@) =~= seq![dv]);
            Ok((Command::AlterAdd(n, v), e))
        }
    } else if at_kw(t, pos, "insert") {
        if !at_kw(t, pos + 1, "into") {
            return Err(DbError::ParseError);
        }
        let (n, q) = name_at(t, pos + 2)?;
        if !(at_kw(t, q, "values") && at_sym(t, q + 1, '(')) {
            return Err(DbError::ParseError);
        }
        let (v, e) = literals_rest_at(t, q + 2)?;
        Ok((Command::Insert(n, v), e))
    } else if at_kw(t, pos, "select") {
        let (pr, q) = projection_at(t, pos + 1)?;
        if !at_kw(t, q, "from") {
            return Err(DbError::ParseError);
        }
        let (n, r) = name_at(t, q + 1)?;
        let (w, e) = where_at(t, r)?;
        Ok((Command::Select(n, pr, w), e))
    } else if at_kw(t, pos, "update") {
        let (n, q) = name_at(t, pos + 1)?;
        if !at_kw(t, q, "set") {
            return Err(DbError::ParseError);
        }
        let (a, r) = assigns_rest_at(t, q + 1)?;
        let (w, e) = where_at(t, r)?;
        Ok((Command::Update(n, a, w), e))
    } else if at_kw(t, pos, "delete") {
        if !at_kw(t, pos + 1, "from") {
            return Err(DbError::ParseError);
        }
        let (n, q) = name_at(t, pos + 2)?;
        let (w, e) = where_at(t, q)?;
        Ok((Command::Delete(n, w), e))
    } else if at_kw(t, pos, ".exit") {
        Ok((Command::Exit, pos + 1))
    } else {
        Err(DbError::ParseError)
    }
}

/// Reads command text into commands (see `script_of`): each closed by `;`, where the last one
/// and `.exit` may go without it, a bare `;` being the empty command. Fails with `ParseError`
/// exactly where the text reads as no such sequence.
pub fn parse_script(text: &String) -> (r: Result<Vec<Command>, DbError>)
    ensures
        r is Ok <==> script_of(text@) is Some,
        r is Ok ==> cmds_view(r->Ok_0@) == script_of(text@)->Some_0,
        r is Err ==> r->Err_0 == DbError::ParseError,
{
    let t = tokenize(text)?;
    let ghost tv = toks_view(t@);
    let mut out: Vec<Command> = Vec::new();
    let mut p: usize = 0;
    proof {
        lemma_prefixed_empty(script_from(tv, 0));
        assert(cmds_view(out@) =~= Seq::<CmdView>::empty());
    }
    while p < t.len()
        invariant
            p <= t@.len(),
            tv == toks_view(t@),
            tv == tokens_of(text@)->Some_0,
            tokens_of(text@) is Some,
            script_from(tv, 0) == prefixed(cmds_view(out@), script_from(tv, p as int)),
        decreases t@.len() - p,
    {
        let ghost before = cmds_view(out@);
        if at_sym(&t, p, ';') {
            proof {
                lemma_prefixed_cons(before, CmdView::Empty, script_from(tv, p + 1));
            }
            out.push(Command::Empty);
            assert(cmds_view(out@) =~= before.push(CmdView::Empty));
            p = p + 1;
        } else {
            let (c, q) = match command_at(&t, p) {
                Ok(x) => x,
                Err(_) => {
                    return Err(DbError::ParseError);
                },
            };
            if !(p < q && q <= t.len()) {
                return Err(DbError::ParseError);
            }
            let ends = matches!(c, Command::Exit);
            let next: usize;
            if at_sym(&t, q, ';') {
                next = q + 1;
            } else if q == t.len() || ends {
                next = q;
            } else {
                return Err(DbError::ParseError);
            }
            let ghost cv = cmd_view(c);
            proof {
                lemma_prefixed_cons(before, cv, script_from(tv, next as int));
            }
            out.push(c);
            assert(cmds_view(out@) =~= before.push(cv));
            p = next;
        }
    }
    proof {
        assert(cmds_view(out@) + Seq::<CmdView>::empty() =~= cmds_view(out@));
    }
    Ok(out)
}

} // verus!
