use vstd::prelude::*;

verus! {

/// Relies on String::push: appends one character.
#[verifier::external_body]
fn push_char(s: &mut String, c: char)
    ensures
        final(s)@ == old(s)@.push(c),
{
    s.push(c)
}

/// The characters of `s`, in order.
fn chars_of(s: &str) -> (r: Vec<char>)
    ensures
        r@ == s@,
{
    let mut v: Vec<char> = Vec::new();
    for c in it: s.chars()
        invariant
            v@ == it.seq().subrange(0, it.index() as int),
            it.seq() == s@,
    {
        v.push(c);
    }
    v
}

/// A `String` holding `v[a..b]`.
fn string_of(v: &Vec<char>, a: usize, b: usize) -> (r: String)
    requires
        a <= b <= v.len(),
    ensures
        r@ == v@.subrange(a as int, b as int),
{
    let mut s = String::new();
    let mut i: usize = a;
    while i < b
        invariant
            a <= i <= b <= v.len(),
            s@ == v@.subrange(a as int, i as int),
        decreases b - i,
    {
        push_char(&mut s, v[i]);
        assert(v@.subrange(a as int, i + 1) =~= v@.subrange(a as int, i as int).push(v@[i as int]));
        i = i + 1;
    }
    s
}

/// A parsed join request `<table1>.<column1> = <table2>.<column2>`.
#[derive(Clone, Debug)]
pub struct JoinRequest {
    pub table1: String,
    pub column1: String,
    pub table2: String,
    pub column2: String,
}

/// Why a join request line was rejected.
#[derive(Clone, Copy, Debug, PartialEq, Eq, Structural)]
pub enum RequestError {
    /// The line holds no `=`.
    MissingEquals,
    /// The left-hand side holds no `.` between table and column.
    MalformedLeft,
    /// The right-hand side holds no `.` between table and column.
    MalformedRight,
}

/// Unicode `White_Space`, the characters that trimming removes.
pub open spec fn is_white_space(c: char) -> bool {
    ('\t' <= c && c <= '\r') || c == ' ' || c == '\u{85}' || c == '\u{a0}' || c == '\u{1680}'
        || ('\u{2000}' <= c && c <= '\u{200a}') || c == '\u{2028}' || c == '\u{2029}' || c
        == '\u{202f}' || c == '\u{205f}' || c == '\u{3000}'
}

/// Whether `c` is Unicode white space.
pub fn white_space(c: char) -> (r: bool)
    ensures
        r == is_white_space(c),
{
    ('\t' <= c && c <= '\r') || c == ' ' || c == '\u{85}' || c == '\u{a0}' || c == '\u{1680}'
        || ('\u{2000}' <= c && c <= '\u{200a}') || c == '\u{2028}' || c == '\u{2029}' || c
        == '\u{202f}' || c == '\u{205f}' || c == '\u{3000}'
}

/// The first position at or after `i` that holds `c`, or `s.len()` if none does.
pub open spec fn find_from(s: Seq<char>, c: char, i: int) -> int
    decreases s.len() - i,
{
    if i >= s.len() {
        s.len() as int
    } else if s[i] == c {
        i
    } else {
        find_from(s, c, i + 1)
    }
}

/// The first position at or after `i` that is not white space, or `s.len()`.
pub open spec fn skip_white_space(s: Seq<char>, i: int) -> int
    decreases s.len() - i,
{
    if i >= s.len() {
        s.len() as int
    } else if !is_white_space(s[i]) {
        i
    } else {
        skip_white_space(s, i + 1)
    }
}

/// The end left after dropping white space backwards from `j`, not below `lo`.
pub open spec fn drop_white_space_back(s: Seq<char>, lo: int, j: int) -> int
    decreases j - lo,
{
    if j <= lo {
        j
    } else if !is_white_space(s[j - 1]) {
        j
    } else {
        drop_white_space_back(s, lo, j - 1)
    }
}

/// `s` without leading and trailing white space.
pub open spec fn trimmed(s: Seq<char>) -> Seq<char> {
    let a = skip_white_space(s, 0);
    s.subrange(a, drop_white_space_back(s, a, s.len() as int))
}

/// Position of the first `.` in a side.
pub open spec fn dot_of(side: Seq<char>) -> int {
    find_from(trimmed(side), '.', 0)
}

/// A side names both a table and a column.
pub open spec fn side_ok(side: Seq<char>) -> bool {
    dot_of(side) < trimmed(side).len()
}

/// The table of a side: what precedes the first `.`.
pub open spec fn table_of(side: Seq<char>) -> Seq<char> {
    trimmed(side).subrange(0, dot_of(side))
}

/// The column of a side: what follows the first `.`, up to the next one.
pub open spec fn column_of(side: Seq<char>) -> Seq<char> {
    let t = trimmed(side);
    t.subrange(dot_of(side) + 1, find_from(t, '.', dot_of(side) + 1))
}

/// Position of the first `=` of a line.
pub open spec fn equals_of(line: Seq<char>) -> int {
    find_from(line, '=', 0)
}

/// What precedes the first `=`.
pub open spec fn left_side(line: Seq<char>) -> Seq<char> {
    line.subrange(0, equals_of(line))
}

/// Everything after the first `=`.
pub open spec fn right_side(line: Seq<char>) -> Seq<char> {
    line.subrange(equals_of(line) + 1, line.len() as int)
}

fn find_char(v: &Vec<char>, c: char, from: usize) -> (r: usize)
    requires
        from <= v.len(),
    ensures
        r == find_from(v@, c, from as int),
        from <= r <= v.len(),
{
    let mut i: usize = from;
    while i < v.len() && v[i] != c
        invariant
            from <= i <= v.len(),
            find_from(v@, c, i as int) == find_from(v@, c, from as int),
        decreases v.len() - i,
    {
        i = i + 1;
    }
    i
}

/// The bounds of `v` without leading and trailing white space.
fn trim_bounds(v: &Vec<char>) -> (r: (usize, usize))
    ensures
        r.0 <= r.1 <= v.len(),
        v@.subrange(r.0 as int, r.1 as int) == trimmed(v@),
{
    let mut a: usize = 0;
    while a < v.len() && white_space(v[a])
        invariant
            a <= v.len(),
            skip_white_space(v@, a as int) == skip_white_space(v@, 0),
        decreases v.len() - a,
    {
        a = a + 1;
    }
    let mut b: usize = v.len();
    while b > a && white_space(v[b - 1])
        invariant
            a <= b <= v.len(),
            a == skip_white_space(v@, 0),
            drop_white_space_back(v@, a as int, b as int) == drop_white_space_back(
                v@,
                a as int,
                v.len() as int,
            ),
        decreases b,
    {
        b = b - 1;
    }
    (a, b)
}

/// `v[a..b]` as a vector of its own.
fn slice_of(v: &Vec<char>, a: usize, b: usize) -> (r: Vec<char>)
    requires
        a <= b <= v.len(),
    ensures
        r@ == v@.subrange(a as int, b as int),
{
    let mut r: Vec<char> = Vec::new();
    let mut i: usize = a;
    while i < b
        invariant
            a <= i <= b <= v.len(),
            r@ == v@.subrange(a as int, i as int),
        decreases b - i,
    {
        r.push(v[i]);
        assert(v@.subrange(a as int, i + 1) =~= v@.subrange(a as int, i as int).push(v@[i as int]));
        i = i + 1;
    }
    r
}

/// Splits one side into its table and column, if it holds a `.`.
fn parse_side(side: &Vec<char>) -> (r: Option<(String, String)>)
    ensures
        r is Some <==> side_ok(side@),
        r matches Some(p) ==> p.0@ == table_of(side@) && p.1@ == column_of(side@),
{
    let (a, b) = trim_bounds(side);
    let t = slice_of(side, a, b);
    let dot = find_char(&t, '.', 0);
    if dot == t.len() {
        return None;
    }
    let end = find_char(&t, '.', dot + 1);
    Some((string_of(&t, 0, dot), string_of(&t, dot + 1, end)))
}

/// Parses `<table1>.<column1> = <table2>.<column2>`. The line is split at its
/// first `=`; each side is trimmed of white space and split at its first `.`,
/// the column ending at the next `.` if there is one.
pub fn parse_join_request(line: &str) -> (r: Result<JoinRequest, RequestError>)
    ensures
        equals_of(line@) == line@.len() <==> r == Err::<JoinRequest, RequestError>(
            RequestError::MissingEquals,
        ),
        equals_of(line@) < line@.len() && !side_ok(left_side(line@)) <==> r == Err::<
            JoinRequest,
            RequestError,
        >(RequestError::MalformedLeft),
        equals_of(line@) < line@.len() && side_ok(left_side(line@)) && !side_ok(
            right_side(line@),
        ) <==> r == Err::<JoinRequest, RequestError>(RequestError::MalformedRight),
        r matches Ok(q) ==> {
            &&& q.table1@ == table_of(left_side(line@))
            &&& q.column1@ == column_of(left_side(line@))
            &&& q.table2@ == table_of(right_side(line@))
            &&& q.column2@ == column_of(right_side(line@))
        },
{
    let v = chars_of(line);
    let eq = find_char(&v, '=', 0);
    if eq == v.len() {
        return Err(RequestError::MissingEquals);
    }
    let left = slice_of(&v, 0, eq);
    let right = slice_of(&v, eq + 1, v.len());
    let (table1, column1) = match parse_side(&left) {
        Some(p) => p,
        None => {
            return Err(RequestError::MalformedLeft);
        },
    };
    let (table2, column2) = match parse_side(&right) {
        Some(p) => p,
        None => {
            return Err(RequestError::MalformedRight);
        },
    };
    Ok(JoinRequest { table1, column1, table2, column2 })
}

} // verus!
