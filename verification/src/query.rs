//! History queries: the SQL statement that a filter stands for.
//!
//! The text of a statement depends on which conditions a filter has, never on
//! what they compare with: values only ever travel as bound parameters.

use vstd::prelude::*;
use vstd::string::*;

use crate::events::QueryFilter;
use crate::text;

verus! {

/// A bound parameter.
#[derive(Debug)]
pub enum SqlValue {
    Text(String),
    Integer(i64),
}

/// A statement with its bound parameters, in order.
#[derive(Debug)]
pub struct SqlQuery {
    pub sql: String,
    pub args: Vec<SqlValue>,
}

/// What a bound parameter holds.
pub enum SqlArg {
    Text(Seq<char>),
    Integer(int),
}

impl View for SqlValue {
    type V = SqlArg;

    open spec fn view(&self) -> SqlArg {
        match self {
            SqlValue::Text(s) => SqlArg::Text(s@),
            SqlValue::Integer(n) => SqlArg::Integer(*n as int),
        }
    }
}

/// One condition on a row.
pub enum Condition {
    Search(Seq<char>),
    Host(Seq<char>),
    Method(Seq<char>),
    Status(int),
    Before(int),
}

/// The search of a filter; an empty search is none.
pub open spec fn search_condition(f: QueryFilter) -> Seq<Condition> {
    match f.search {
        Some(s) if s@.len() > 0 => seq![Condition::Search(s@)],
        _ => Seq::empty(),
    }
}

/// The condition of a filter on the host.
pub open spec fn host_condition(f: QueryFilter) -> Seq<Condition> {
    match f.host {
        Some(s) => seq![Condition::Host(s@)],
        None => Seq::empty(),
    }
}

/// The condition of a filter on the method.
pub open spec fn method_condition(f: QueryFilter) -> Seq<Condition> {
    match f.method {
        Some(s) => seq![Condition::Method(s@)],
        None => Seq::empty(),
    }
}

/// The condition of a filter on the status.
pub open spec fn status_condition(f: QueryFilter) -> Seq<Condition> {
    match f.status {
        Some(n) => seq![Condition::Status(n as int)],
        None => Seq::empty(),
    }
}

/// The condition of a filter on the identifier. Every row is below a bound
/// that is out of the range of an SQL integer, so such a bound is none.
pub open spec fn before_condition(f: QueryFilter) -> Seq<Condition> {
    match f.before_id {
        Some(n) if n <= i64::MAX => seq![Condition::Before(n as int)],
        _ => Seq::empty(),
    }
}

/// The conditions of a filter.
pub open spec fn conditions(f: QueryFilter) -> Seq<Condition> {
    search_condition(f) + host_condition(f) + method_condition(f) + status_condition(f)
        + before_condition(f)
}

/// Whether a character stands for itself in a `LIKE` pattern only after the
/// escape character.
pub open spec fn is_wildcard(c: char) -> bool {
    c == '%' || c == '_' || c == '\\'
}

/// Text of which every character stands for itself in a `LIKE` pattern with
/// the escape character `\`.
pub open spec fn like_literal(s: Seq<char>) -> Seq<char>
    decreases s.len(),
{
    if s.len() == 0 {
        Seq::empty()
    } else if is_wildcard(s[0]) {
        seq!['\\', s[0]] + like_literal(s.skip(1))
    } else {
        seq![s[0]] + like_literal(s.skip(1))
    }
}

/// The `LIKE` pattern of a substring search.
pub open spec fn like_pattern(s: Seq<char>) -> Seq<char> {
    seq!['%'] + like_literal(s) + seq!['%']
}

/// The parameter of a condition.
pub open spec fn arg_of(c: Condition) -> SqlArg {
    match c {
        Condition::Search(s) => SqlArg::Text(like_pattern(s)),
        Condition::Host(s) => SqlArg::Text(s),
        Condition::Method(s) => SqlArg::Text(s),
        Condition::Status(n) => SqlArg::Integer(n),
        Condition::Before(n) => SqlArg::Integer(n),
    }
}

/// The SQL of a condition whose parameter has number `k`.
pub open spec fn clause(c: Condition, k: nat) -> Seq<char> {
    match c {
        Condition::Search(_) => " AND (host LIKE ?"@ + text::decimal_of(k)
            + " ESCAPE '\\' OR path LIKE ?"@ + text::decimal_of(k) + " ESCAPE '\\')"@,
        Condition::Host(_) => " AND host = ?"@ + text::decimal_of(k),
        Condition::Method(_) => " AND method = ?"@ + text::decimal_of(k),
        Condition::Status(_) => " AND status = ?"@ + text::decimal_of(k),
        Condition::Before(_) => " AND id < ?"@ + text::decimal_of(k),
    }
}

/// The SQL of a list of conditions, whose parameters are numbered from one.
pub open spec fn clauses(cs: Seq<Condition>) -> Seq<char>
    decreases cs.len(),
{
    if cs.len() == 0 {
        Seq::empty()
    } else {
        clauses(cs.drop_last()) + clause(cs.last(), cs.len())
    }
}

/// The most rows that a query returns.
pub open spec fn row_limit(f: QueryFilter) -> nat {
    let wanted: nat = match f.limit {
        Some(n) => n as nat,
        None => 500,
    };
    if wanted <= 5000 {
        wanted
    } else {
        5000
    }
}

/// The statement up to its conditions.
pub open spec fn select_head() -> Seq<char> {
    "SELECT id, started_at, duration_ms, kind, scheme, method, host, path, query, status, req_size, resp_size, content_type, error FROM transactions WHERE 1=1"@
}

/// The statement of a filter.
pub open spec fn query_sql(f: QueryFilter) -> Seq<char> {
    select_head() + clauses(conditions(f)) + " ORDER BY id DESC LIMIT "@ + text::decimal_of(row_limit(f))
}

/// The pattern of a substring search.
fn search_pattern(s: &str) -> (r: String)
    ensures
        r@ == like_pattern(s@),
{
    let v = text::chars_of(s);
    let mut out = String::new();
    out.push('%');
    let mut i: usize = 0;
    proof {
        assert(s@.skip(0) == s@);
        assert(out@ =~= seq!['%']);
        assert(out@ + like_literal(s@) =~= seq!['%'] + like_literal(s@));
    }
    while i < v.len()
        invariant
            i <= v@.len(),
            v@ == s@,
            out@ + like_literal(s@.skip(i as int)) == seq!['%'] + like_literal(s@),
        decreases v@.len() - i,
    {
        let c = v[i];
        let ghost before = out@;
        proof {
            assert(s@.skip(i as int)[0] == c);
            assert(s@.skip(i as int).skip(1) == s@.skip(i + 1));
        }
        if c == '%' || c == '_' || c == '\\' {
            out.push('\\');
            out.push(c);
            proof {
                assert(out@ + like_literal(s@.skip(i + 1)) =~= before + (seq!['\\', c]
                    + like_literal(s@.skip(i + 1))));
            }
        } else {
            out.push(c);
            proof {
                assert(out@ + like_literal(s@.skip(i + 1)) =~= before + (seq![c] + like_literal(
                    s@.skip(i + 1),
                )));
            }
        }
        i += 1;
    }
    proof {
        assert(s@.skip(i as int) =~= Seq::<char>::empty());
        assert(out@ + Seq::<char>::empty() =~= out@);
    }
    out.push('%');
    proof {
        assert(out@ =~= like_pattern(s@));
    }
    out
}

/// The views of a list of parameters.
pub open spec fn arg_views(args: Seq<SqlValue>) -> Seq<SqlArg> {
    args.map_values(|a: SqlValue| a@)
}

/// The parameters of a list of conditions.
pub open spec fn args_of(cs: Seq<Condition>) -> Seq<SqlArg> {
    cs.map_values(|c: Condition| arg_of(c))
}

/// One more condition adds its clause and its parameter.
proof fn lemma_condition_added(cs: Seq<Condition>, c: Condition)
    ensures
        clauses(cs.push(c)) == clauses(cs) + clause(c, cs.len() + 1),
        args_of(cs.push(c)) == args_of(cs).push(arg_of(c)),
{
    assert(cs.push(c).drop_last() =~= cs);
    assert(args_of(cs.push(c)) =~= args_of(cs).push(arg_of(c)));
}

/// Append a text and a number.
fn append_numbered(sql: &mut String, part: &str, n: usize)
    ensures
        final(sql)@ == old(sql)@ + part@ + text::decimal_of(n as nat),
{
    sql.append(part);
    let numeral = text::decimal(n as u64);
    sql.append(numeral.as_str());
}

/// The statement holds these conditions so far.
spec fn builds(q: SqlQuery, cs: Seq<Condition>) -> bool {
    &&& q.sql@ == select_head() + clauses(cs)
    &&& arg_views(q.args@) == args_of(cs)
}

/// Add one condition that compares a column with a value.
fn add_comparison(
    q: &mut SqlQuery,
    part: &str,
    value: SqlValue,
    Ghost(cs): Ghost<Seq<Condition>>,
    Ghost(c): Ghost<Condition>,
)
    requires
        builds(*old(q), cs),
        value@ == arg_of(c),
        clause(c, cs.len() + 1) == part@ + text::decimal_of(cs.len() + 1),
    ensures
        builds(*final(q), cs.push(c)),
{
    let ghost had = arg_views(q.args@);
    let ghost was = q.sql@;
    q.args.push(value);
    let n: usize = q.args.len();
    append_numbered(&mut q.sql, part, n);
    proof {
        assert(had.len() == cs.len());
        lemma_condition_added(cs, c);
        assert(arg_views(q.args@) =~= had.push(arg_of(c)));
        assert(q.sql@ =~= select_head() + clauses(cs.push(c)));
    }
}

/// Add the search.
fn add_search(q: &mut SqlQuery, filter: &QueryFilter, Ghost(cs): Ghost<Seq<Condition>>)
    requires
        builds(*old(q), cs),
    ensures
        builds(*final(q), cs + search_condition(*filter)),
{
    if let Some(search) = &filter.search {
        if !search.as_str().is_empty() {
            let ghost had = arg_views(q.args@);
            q.args.push(SqlValue::Text(search_pattern(search.as_str())));
            let n: usize = q.args.len();
            append_numbered(&mut q.sql, " AND (host LIKE ?", n);
            append_numbered(&mut q.sql, " ESCAPE '\\' OR path LIKE ?", n);
            q.sql.append(" ESCAPE '\\')");
            proof {
                let c = Condition::Search(search@);
                assert(had.len() == cs.len());
                lemma_condition_added(cs, c);
                assert(arg_views(q.args@) =~= had.push(arg_of(c)));
                assert(q.sql@ =~= select_head() + clauses(cs.push(c)));
                assert(cs + search_condition(*filter) =~= cs.push(c));
            }
            return;
        }
    }
    proof {
        assert(cs + search_condition(*filter) =~= cs);
    }
}

/// Add the condition on the host.
fn add_host(q: &mut SqlQuery, filter: &QueryFilter, Ghost(cs): Ghost<Seq<Condition>>)
    requires
        builds(*old(q), cs),
    ensures
        builds(*final(q), cs + host_condition(*filter)),
{
    if let Some(host) = &filter.host {
        let ghost c = Condition::Host(host@);
        add_comparison(q, " AND host = ?", SqlValue::Text(host.clone()), Ghost(cs), Ghost(c));
        proof {
            assert(cs + host_condition(*filter) =~= cs.push(c));
        }
    } else {
        proof {
            assert(cs + host_condition(*filter) =~= cs);
        }
    }
}

/// Add the condition on the method.
fn add_method(q: &mut SqlQuery, filter: &QueryFilter, Ghost(cs): Ghost<Seq<Condition>>)
    requires
        builds(*old(q), cs),
    ensures
        builds(*final(q), cs + method_condition(*filter)),
{
    if let Some(method) = &filter.method {
        let ghost c = Condition::Method(method@);
        add_comparison(q, " AND method = ?", SqlValue::Text(method.clone()), Ghost(cs), Ghost(c));
        proof {
            assert(cs + method_condition(*filter) =~= cs.push(c));
        }
    } else {
        proof {
            assert(cs + method_condition(*filter) =~= cs);
        }
    }
}

/// Add the condition on the status.
fn add_status(q: &mut SqlQuery, filter: &QueryFilter, Ghost(cs): Ghost<Seq<Condition>>)
    requires
        builds(*old(q), cs),
    ensures
        builds(*final(q), cs + status_condition(*filter)),
{
    if let Some(status) = filter.status {
        let ghost c = Condition::Status(status as int);
        add_comparison(
            q,
            " AND status = ?",
            SqlValue::Integer(status as i64),
            Ghost(cs),
            Ghost(c),
        );
        proof {
            assert(cs + status_condition(*filter) =~= cs.push(c));
        }
    } else {
        proof {
            assert(cs + status_condition(*filter) =~= cs);
        }
    }
}

/// Add the condition on the identifier.
fn add_before(q: &mut SqlQuery, filter: &QueryFilter, Ghost(cs): Ghost<Seq<Condition>>)
    requires
        builds(*old(q), cs),
    ensures
        builds(*final(q), cs + before_condition(*filter)),
{
    if let Some(before) = filter.before_id {
        if before <= i64::MAX as u64 {
            let ghost c = Condition::Before(before as int);
            add_comparison(
                q,
                " AND id < ?",
                SqlValue::Integer(before as i64),
                Ghost(cs),
                Ghost(c),
            );
            proof {
                assert(cs + before_condition(*filter) =~= cs.push(c));
            }
            return;
        }
    }
    proof {
        assert(cs + before_condition(*filter) =~= cs);
    }
}

/// The statement that a filter stands for.
pub fn query(filter: &QueryFilter) -> (r: SqlQuery)
    ensures
        r.sql@ == query_sql(*filter),
        arg_views(r.args@) == args_of(conditions(*filter)),
{
    let mut q = SqlQuery {
        sql: "SELECT id, started_at, duration_ms, kind, scheme, method, host, path, query, status, req_size, resp_size, content_type, error FROM transactions WHERE 1=1".to_owned(),
        args: Vec::new(),
    };
    let ghost c0: Seq<Condition> = Seq::empty();
    proof {
        assert(q.sql@ =~= select_head() + clauses(c0));
        assert(arg_views(q.args@) =~= args_of(c0));
        assert(c0 + search_condition(*filter) =~= search_condition(*filter));
    }
    let ghost c1 = search_condition(*filter);
    let ghost c2 = c1 + host_condition(*filter);
    let ghost c3 = c2 + method_condition(*filter);
    let ghost c4 = c3 + status_condition(*filter);
    add_search(&mut q, filter, Ghost(c0));
    add_host(&mut q, filter, Ghost(c1));
    add_method(&mut q, filter, Ghost(c2));
    add_status(&mut q, filter, Ghost(c3));
    add_before(&mut q, filter, Ghost(c4));
    let wanted: u32 = match filter.limit {
        Some(n) => n,
        None => 500,
    };
    let limit: u32 = if wanted <= 5000 {
        wanted
    } else {
        5000
    };
    append_numbered(&mut q.sql, " ORDER BY id DESC LIMIT ", limit as usize);
    q
}

/// Two filters have the same conditions, whatever these compare with.
pub open spec fn same_shape(a: QueryFilter, b: QueryFilter) -> bool {
    let x = conditions(a);
    let y = conditions(b);
    &&& x.len() == y.len()
    &&& forall|i: int|
        0 <= i < x.len() ==> match (#[trigger] x[i], y[i]) {
            (Condition::Search(_), Condition::Search(_)) => true,
            (Condition::Host(_), Condition::Host(_)) => true,
            (Condition::Method(_), Condition::Method(_)) => true,
            (Condition::Status(_), Condition::Status(_)) => true,
            (Condition::Before(_), Condition::Before(_)) => true,
            _ => false,
        }
    &&& row_limit(a) == row_limit(b)
}

/// Nothing that a filter compares with gets into the statement's text.
pub proof fn law_text_independent_of_values(a: QueryFilter, b: QueryFilter)
    requires
        same_shape(a, b),
    ensures
        query_sql(a) == query_sql(b),
{
    lemma_clauses_by_shape(conditions(a), conditions(b), conditions(a).len());
    assert(conditions(a).take(conditions(a).len() as int) =~= conditions(a));
    assert(conditions(b).take(conditions(b).len() as int) =~= conditions(b));
}

/// The SQL of conditions depends on their kinds only.
proof fn lemma_clauses_by_shape(x: Seq<Condition>, y: Seq<Condition>, n: nat)
    requires
        x.len() == y.len(),
        n <= x.len(),
        forall|i: int|
            0 <= i < x.len() ==> match (#[trigger] x[i], y[i]) {
                (Condition::Search(_), Condition::Search(_)) => true,
                (Condition::Host(_), Condition::Host(_)) => true,
                (Condition::Method(_), Condition::Method(_)) => true,
                (Condition::Status(_), Condition::Status(_)) => true,
                (Condition::Before(_), Condition::Before(_)) => true,
                _ => false,
            },
    ensures
        clauses(x.take(n as int)) == clauses(y.take(n as int)),
    decreases n,
{
    if n > 0 {
        lemma_clauses_by_shape(x, y, (n - 1) as nat);
        assert(x.take(n as int).drop_last() =~= x.take(n - 1));
        assert(y.take(n as int).drop_last() =~= y.take(n - 1));
        assert(x.take(n as int).last() == x[n - 1]);
        assert(y.take(n as int).last() == y[n - 1]);
    }
}

/// What SQL's `LIKE` with the escape character `\` accepts: `%` stands for any
/// text, `_` for any one character, a character after the escape for itself,
/// and any other character for itself, ASCII letters in either case.
pub open spec fn like(pattern: Seq<char>, s: Seq<char>) -> bool
    decreases pattern.len(), s.len(),
{
    if pattern.len() == 0 {
        s.len() == 0
    } else if pattern[0] == '%' {
        like(pattern.skip(1), s) || (s.len() > 0 && like(pattern, s.skip(1)))
    } else if pattern[0] == '_' {
        s.len() > 0 && like(pattern.skip(1), s.skip(1))
    } else if pattern[0] == '\\' {
        pattern.len() > 1 && s.len() > 0 && text::lower_char(pattern[1]) == text::lower_char(s[0])
            && like(pattern.skip(2), s.skip(1))
    } else {
        s.len() > 0 && text::lower_char(pattern[0]) == text::lower_char(s[0]) && like(
            pattern.skip(1),
            s.skip(1),
        )
    }
}

/// `%` accepts everything.
proof fn lemma_percent_accepts(s: Seq<char>)
    ensures
        like(seq!['%'], s),
    decreases s.len(),
{
    if s.len() > 0 {
        lemma_percent_accepts(s.skip(1));
    } else {
        assert(seq!['%'].skip(1) =~= Seq::<char>::empty());
        assert(like(seq!['%'].skip(1), s));
    }
}

/// A literal followed by `%` accepts what begins with the literal.
proof fn lemma_literal_accepts(part: Seq<char>, s: Seq<char>)
    ensures
        like(like_literal(part) + seq!['%'], s) <==> text::begins(
            text::lower(s),
            text::lower(part),
        ),
    decreases part.len(),
{
    let pattern = like_literal(part) + seq!['%'];
    if part.len() == 0 {
        assert(pattern =~= seq!['%']);
        lemma_percent_accepts(s);
        assert(text::lower(s).take(0) =~= text::lower(part));
    } else {
        let c = part[0];
        let rest = like_literal(part.skip(1)) + seq!['%'];
        if is_wildcard(c) {
            assert(pattern[0] == '\\' && pattern[1] == c);
            assert(pattern.skip(2) =~= rest);
        } else {
            assert(pattern[0] == c);
            assert(pattern.skip(1) =~= rest);
        }
        if s.len() > 0 {
            lemma_literal_accepts(part.skip(1), s.skip(1));
            lemma_begins_step(s, part);
        }
    }
}

/// A text begins with another when their first characters agree and so does
/// the rest.
proof fn lemma_begins_step(s: Seq<char>, part: Seq<char>)
    requires
        s.len() > 0,
        part.len() > 0,
    ensures
        text::begins(text::lower(s), text::lower(part)) <==> text::lower_char(part[0])
            == text::lower_char(s[0]) && text::begins(
            text::lower(s.skip(1)),
            text::lower(part.skip(1)),
        ),
{
    let a = text::lower(s);
    let b = text::lower(part);
    let n = b.len() as int;
    assert(text::lower(s.skip(1)) =~= a.skip(1));
    assert(text::lower(part.skip(1)) =~= b.skip(1));
    if n <= a.len() {
        assert(a.skip(1).take(n - 1) =~= a.take(n).skip(1));
        if a.take(n) == b {
            assert(a.take(n)[0] == b[0]);
        }
        if text::lower_char(part[0]) == text::lower_char(s[0]) && a.skip(1).take(n - 1) == b.skip(
            1,
        ) {
            assert forall|i: int| 0 <= i < n implies a.take(n)[i] == b[i] by {
                if i > 0 {
                    assert(a.take(n).skip(1)[i - 1] == b.skip(1)[i - 1]);
                }
            }
            assert(a.take(n) =~= b);
        }
    }
}

/// A text holds another when it begins with it, or when its rest holds it.
proof fn lemma_contains_step(s: Seq<char>, part: Seq<char>)
    ensures
        text::contains_text(s, part) <==> text::begins(s, part) || (s.len() > 0
            && text::contains_text(s.skip(1), part)),
{
    let n = part.len();
    if text::contains_text(s, part) {
        let i = choose|i: int| text::occurs_at(s, part, i);
        if i == 0 {
            assert(s.take(n as int) =~= s.subrange(0, n as int));
        } else {
            assert(s.skip(1).subrange(i - 1, i - 1 + n) =~= s.subrange(i, i + n));
            assert(text::occurs_at(s.skip(1), part, i - 1));
        }
    }
    if text::begins(s, part) {
        assert(s.take(n as int) =~= s.subrange(0, n as int));
        assert(text::occurs_at(s, part, 0));
    }
    if s.len() > 0 && text::contains_text(s.skip(1), part) {
        let i = choose|i: int| text::occurs_at(s.skip(1), part, i);
        assert(s.skip(1).subrange(i, i + n) =~= s.subrange(i + 1, i + 1 + n));
        assert(text::occurs_at(s, part, i + 1));
    }
}

/// The pattern of a search accepts exactly the texts that hold the searched
/// text, ASCII letters in either case. No character of the searched text is
/// taken for a wildcard.
pub proof fn law_search_is_substring(part: Seq<char>, s: Seq<char>)
    ensures
        like(like_pattern(part), s) <==> text::contains_text(text::lower(s), text::lower(part)),
    decreases s.len(),
{
    let pattern = like_pattern(part);
    assert(pattern.skip(1) =~= like_literal(part) + seq!['%']);
    lemma_literal_accepts(part, s);
    lemma_contains_step(text::lower(s), text::lower(part));
    if s.len() > 0 {
        law_search_is_substring(part, s.skip(1));
        assert(text::lower(s.skip(1)) =~= text::lower(s).skip(1));
    }
}

/// The columns of a row that conditions look at.
pub struct RowColumns {
    pub id: int,
    pub host: Seq<char>,
    pub path: Seq<char>,
    pub method: Seq<char>,
    pub status: Option<int>,
}

/// Whether a row meets a condition, as SQL evaluates its clause.
pub open spec fn holds(c: Condition, row: RowColumns) -> bool {
    match c {
        Condition::Search(s) => like(like_pattern(s), row.host) || like(like_pattern(s), row.path),
        Condition::Host(s) => row.host == s,
        Condition::Method(s) => row.method == s,
        Condition::Status(n) => row.status == Some(n),
        Condition::Before(n) => row.id < n,
    }
}

/// Whether a row is one that the filter asks for.
pub open spec fn selected(f: QueryFilter, row: RowColumns) -> bool {
    &&& f.search matches Some(s) ==> {
        ||| s@.len() == 0
        ||| text::contains_text(text::lower(row.host), text::lower(s@))
        ||| text::contains_text(text::lower(row.path), text::lower(s@))
    }
    &&& f.host matches Some(s) ==> row.host == s@
    &&& f.method matches Some(s) ==> row.method == s@
    &&& f.status matches Some(n) ==> row.status == Some(n as int)
    &&& f.before_id matches Some(n) ==> row.id < n
}

/// A row meets the conditions of the statement exactly when the filter asks
/// for it.
pub proof fn law_query_selects_matching_rows(f: QueryFilter, row: RowColumns)
    requires
        row.id <= i64::MAX,
    ensures
        (forall|i: int|
            0 <= i < conditions(f).len() ==> holds(#[trigger] conditions(f)[i], row)) <==> selected(
            f,
            row,
        ),
{
    let cs = conditions(f);
    let a = search_condition(f);
    let b = host_condition(f);
    let c = method_condition(f);
    let d = status_condition(f);
    let e = before_condition(f);
    if a.len() > 0 {
        law_search_is_substring(f.search->0@, row.host);
        law_search_is_substring(f.search->0@, row.path);
        assert(cs[0] == a[0]);
    }
    if b.len() > 0 {
        assert(cs[a.len() as int] == b[0]);
    }
    if c.len() > 0 {
        assert(cs[(a.len() + b.len()) as int] == c[0]);
    }
    if d.len() > 0 {
        assert(cs[(a.len() + b.len() + c.len()) as int] == d[0]);
    }
    if e.len() > 0 {
        assert(cs[(a.len() + b.len() + c.len() + d.len()) as int] == e[0]);
    }
    if selected(f, row) {
        assert forall|i: int| 0 <= i < cs.len() implies holds(#[trigger] cs[i], row) by {
            if i < a.len() {
                assert(cs[i] == a[i]);
            } else if i < a.len() + b.len() {
                assert(cs[i] == b[i - a.len()]);
            } else if i < a.len() + b.len() + c.len() {
                assert(cs[i] == c[i - a.len() - b.len()]);
            } else if i < a.len() + b.len() + c.len() + d.len() {
                assert(cs[i] == d[i - a.len() - b.len() - c.len()]);
            } else {
                assert(cs[i] == e[i - a.len() - b.len() - c.len() - d.len()]);
            }
        }
    }
}

/// The identifiers of the rows that a query returns of a table: of the rows
/// that the filter asks for the newest, newest first, at most as many as the
/// limit.
pub open spec fn is_page(f: QueryFilter, table: Map<int, RowColumns>, page: Seq<int>) -> bool {
    &&& page.len() <= row_limit(f)
    &&& forall|i: int, j: int| 0 <= i < j < page.len() ==> page[i] > page[j]
    &&& forall|i: int|
        0 <= i < page.len() ==> table.contains_key(#[trigger] page[i]) && selected(
            f,
            table[page[i]],
        )
    &&& forall|id: int|
        #![trigger table[id]]
        table.contains_key(id) && selected(f, table[id]) && !page.contains(id) ==> {
            &&& page.len() == row_limit(f)
            &&& forall|i: int| 0 <= i < page.len() ==> id < #[trigger] page[i]
        }
}

/// Paging backwards from the last row of a page goes on exactly after it: the
/// next page repeats no row, and every row that was asked for and is not on
/// the first page is asked for again.
pub proof fn law_paging_neither_repeats_nor_skips(
    f: QueryFilter,
    table: Map<int, RowColumns>,
    page: Seq<int>,
    next: QueryFilter,
    next_page: Seq<int>,
    id: int,
)
    requires
        is_page(f, table, page),
        page.len() > 0,
        0 <= page.last() <= u64::MAX,
        forall|k: int| #[trigger] table.contains_key(k) ==> table[k].id == k,
        next == (QueryFilter { before_id: Some(page.last() as u64), ..f }),
        is_page(next, table, next_page),
    ensures
        page.contains(id) ==> !next_page.contains(id),
        table.contains_key(id) && selected(f, table[id]) && !page.contains(id) ==> selected(
            next,
            table[id],
        ),
        table.contains_key(id) && selected(next, table[id]) ==> selected(f, table[id]),
{
    let last = page[page.len() - 1];
    assert(table.contains_key(last) && selected(f, table[last]));
    if next_page.contains(id) {
        let j = choose|j: int| 0 <= j < next_page.len() && next_page[j] == id;
        assert(selected(next, table[next_page[j]]));
        if page.contains(id) {
            let i = choose|i: int| 0 <= i < page.len() && page[i] == id;
            if i < page.len() - 1 {
                assert(page[i] > page[page.len() - 1]);
            }
        }
    }
}

/// A column that a condition looks at.
pub enum SqlColumn {
    Id,
    Host,
    Path,
    Method,
    Status,
}

/// A comparison operator.
pub enum SqlOperator {
    Equal,
    NotEqual,
    Less,
    LessOrEqual,
    Greater,
    GreaterOrEqual,
    Like,
}

/// A comparison of a column with a parameter, which is told by its number.
pub struct SqlTest {
    pub column: SqlColumn,
    pub operator: SqlOperator,
    pub parameter: nat,
}

/// The name of a column in SQL.
pub open spec fn column_text(c: SqlColumn) -> Seq<char> {
    match c {
        SqlColumn::Id => "id"@,
        SqlColumn::Host => "host"@,
        SqlColumn::Path => "path"@,
        SqlColumn::Method => "method"@,
        SqlColumn::Status => "status"@,
    }
}

/// An operator in SQL.
pub open spec fn operator_text(op: SqlOperator) -> Seq<char> {
    match op {
        SqlOperator::Equal => "="@,
        SqlOperator::NotEqual => "<>"@,
        SqlOperator::Less => "<"@,
        SqlOperator::LessOrEqual => "<="@,
        SqlOperator::Greater => ">"@,
        SqlOperator::GreaterOrEqual => ">="@,
        SqlOperator::Like => "LIKE"@,
    }
}

/// A comparison in SQL: `LIKE` always with the escape character `\`.
pub open spec fn test_text(t: SqlTest) -> Seq<char> {
    column_text(t.column) + seq![' '] + operator_text(t.operator) + seq![' ', '?']
        + text::decimal_of(t.parameter) + (if t.operator is Like {
        " ESCAPE '\\'"@
    } else {
        Seq::empty()
    })
}

/// Comparisons in SQL of which one has to be true.
pub open spec fn alternatives_text(tests: Seq<SqlTest>) -> Seq<char>
    decreases tests.len(),
{
    if tests.len() == 0 {
        Seq::empty()
    } else if tests.len() == 1 {
        test_text(tests[0])
    } else {
        test_text(tests[0]) + " OR "@ + alternatives_text(tests.skip(1))
    }
}

/// One more condition in SQL: a comparison, or several in brackets.
pub open spec fn and_text(tests: Seq<SqlTest>) -> Seq<char> {
    if tests.len() == 1 {
        " AND "@ + test_text(tests[0])
    } else {
        " AND ("@ + alternatives_text(tests) + ")"@
    }
}

/// All further conditions in SQL.
pub open spec fn ands_text(all: Seq<Seq<SqlTest>>) -> Seq<char>
    decreases all.len(),
{
    if all.len() == 0 {
        Seq::empty()
    } else {
        ands_text(all.drop_last()) + and_text(all.last())
    }
}

/// What a row holds in a column; nothing where it is null.
pub open spec fn cell(row: RowColumns, c: SqlColumn) -> Option<SqlArg> {
    match c {
        SqlColumn::Id => Some(SqlArg::Integer(row.id)),
        SqlColumn::Host => Some(SqlArg::Text(row.host)),
        SqlColumn::Path => Some(SqlArg::Text(row.path)),
        SqlColumn::Method => Some(SqlArg::Text(row.method)),
        SqlColumn::Status => match row.status {
            Some(n) => Some(SqlArg::Integer(n)),
            None => None,
        },
    }
}

/// Whether one text comes before another, character by character.
pub open spec fn text_before(a: Seq<char>, b: Seq<char>) -> bool
    decreases a.len(),
{
    if b.len() == 0 {
        false
    } else if a.len() == 0 {
        true
    } else {
        a[0] < b[0] || (a[0] == b[0] && text_before(a.skip(1), b.skip(1)))
    }
}

/// Whether one value comes before another of its kind.
pub open spec fn value_before(a: SqlArg, b: SqlArg) -> bool {
    match (a, b) {
        (SqlArg::Integer(m), SqlArg::Integer(n)) => m < n,
        (SqlArg::Text(s), SqlArg::Text(t)) => text_before(s, t),
        (SqlArg::Integer(_), SqlArg::Text(_)) => true,
        (SqlArg::Text(_), SqlArg::Integer(_)) => false,
    }
}

/// Whether a comparison is true of a row. None is true of a null.
pub open spec fn test_true(t: SqlTest, args: Seq<SqlArg>, row: RowColumns) -> bool {
    match cell(row, t.column) {
        None => false,
        Some(v) => {
            let a = args[t.parameter - 1];
            &&& 1 <= t.parameter <= args.len()
            &&& match t.operator {
                SqlOperator::Equal => v == a,
                SqlOperator::NotEqual => v != a,
                SqlOperator::Less => value_before(v, a),
                SqlOperator::LessOrEqual => value_before(v, a) || v == a,
                SqlOperator::Greater => value_before(a, v),
                SqlOperator::GreaterOrEqual => value_before(a, v) || v == a,
                SqlOperator::Like => v is Text && a is Text && like(a->Text_0, v->Text_0),
            }
        },
    }
}

/// Whether one of some comparisons is true of a row.
pub open spec fn some_true(tests: Seq<SqlTest>, args: Seq<SqlArg>, row: RowColumns) -> bool {
    exists|i: int| 0 <= i < tests.len() && test_true(#[trigger] tests[i], args, row)
}

/// Whether a row meets all conditions of a statement.
pub open spec fn row_satisfies(
    all: Seq<Seq<SqlTest>>,
    args: Seq<SqlArg>,
    row: RowColumns,
) -> bool {
    forall|i: int| 0 <= i < all.len() ==> some_true(#[trigger] all[i], args, row)
}

/// The comparisons of a condition whose parameter has number `k`.
spec fn tests_of(c: Condition, k: nat) -> Seq<SqlTest> {
    match c {
        Condition::Search(_) => seq![
            SqlTest { column: SqlColumn::Host, operator: SqlOperator::Like, parameter: k },
            SqlTest { column: SqlColumn::Path, operator: SqlOperator::Like, parameter: k },
        ],
        Condition::Host(_) => seq![
            SqlTest { column: SqlColumn::Host, operator: SqlOperator::Equal, parameter: k },
        ],
        Condition::Method(_) => seq![
            SqlTest { column: SqlColumn::Method, operator: SqlOperator::Equal, parameter: k },
        ],
        Condition::Status(_) => seq![
            SqlTest { column: SqlColumn::Status, operator: SqlOperator::Equal, parameter: k },
        ],
        Condition::Before(_) => seq![
            SqlTest { column: SqlColumn::Id, operator: SqlOperator::Less, parameter: k },
        ],
    }
}

/// The comparisons of a list of conditions.
spec fn all_tests(cs: Seq<Condition>) -> Seq<Seq<SqlTest>> {
    Seq::new(cs.len(), |i: int| tests_of(cs[i], (i + 1) as nat))
}

/// The SQL of a condition is that of its comparisons.
proof fn lemma_clause_is_written(c: Condition, k: nat)
    ensures
        clause(c, k) == and_text(tests_of(c, k)),
{
    reveal_strlit(" AND (host LIKE ?");
    reveal_strlit(" ESCAPE '\\' OR path LIKE ?");
    reveal_strlit(" ESCAPE '\\')");
    reveal_strlit(" ESCAPE '\\'");
    reveal_strlit(" AND host = ?");
    reveal_strlit(" AND method = ?");
    reveal_strlit(" AND status = ?");
    reveal_strlit(" AND id < ?");
    reveal_strlit(" AND ");
    reveal_strlit(" AND (");
    reveal_strlit(")");
    reveal_strlit(" OR ");
    reveal_strlit("id");
    reveal_strlit("host");
    reveal_strlit("path");
    reveal_strlit("method");
    reveal_strlit("status");
    reveal_strlit("=");
    reveal_strlit("<");
    reveal_strlit("LIKE");
    let tests = tests_of(c, k);
    if c is Search {
        reveal_with_fuel(alternatives_text, 2);
        assert(tests.skip(1) =~= seq![tests[1]]);
        assert(alternatives_text(tests.skip(1)) == test_text(tests[1]));
    }
    assert(clause(c, k) =~= and_text(tests));
}

/// The SQL of a list of conditions is that of their comparisons.
proof fn lemma_clauses_are_written(cs: Seq<Condition>)
    ensures
        clauses(cs) == ands_text(all_tests(cs)),
    decreases cs.len(),
{
    if cs.len() > 0 {
        lemma_clauses_are_written(cs.drop_last());
        lemma_clause_is_written(cs.last(), cs.len());
        assert(all_tests(cs).drop_last() =~= all_tests(cs.drop_last()));
        assert(all_tests(cs).last() == tests_of(cs.last(), cs.len()));
    }
}

/// The comparisons of a condition are true of the rows that meet it.
proof fn lemma_tests_mean_the_conditions(cs: Seq<Condition>, row: RowColumns, i: int)
    requires
        0 <= i < cs.len(),
    ensures
        some_true(all_tests(cs)[i], args_of(cs), row) <==> holds(cs[i], row),
{
    let tests = tests_of(cs[i], (i + 1) as nat);
    let args = args_of(cs);
    assert(all_tests(cs)[i] == tests);
    assert(args[i] == arg_of(cs[i]));
    assert(test_true(tests[0], args, row) || !test_true(tests[0], args, row));
    if cs[i] is Search {
        assert(test_true(tests[1], args, row) || !test_true(tests[1], args, row));
    }
    if holds(cs[i], row) {
        if cs[i] is Search && !test_true(tests[0], args, row) {
            assert(test_true(tests[1], args, row));
        } else {
            assert(test_true(tests[0], args, row));
        }
    }
    if some_true(tests, args, row) {
        let k = choose|k: int| 0 <= k < tests.len() && test_true(#[trigger] tests[k], args, row);
        assert(k == 0 || k == 1);
    }
}

/// What the text of the statement selects. It reads as conditions, each of
/// them comparisons of a column with a parameter, and a row satisfies these
/// with the bound parameters exactly when the filter asks for it. Of such rows
/// it returns those with the highest identifiers, highest first, as many as
/// the filter wants: five hundred where it does not say, and never more than
/// five thousand.
pub proof fn law_statement_text_selects_what_is_asked_for(filter: &QueryFilter, r: SqlQuery)
    requires
        call_ensures(query, (filter,), r),
    ensures
        exists|all: Seq<Seq<SqlTest>>, n: nat|
            {
                &&& r.sql@
                    == "SELECT id, started_at, duration_ms, kind, scheme, method, host, path, query, status, req_size, resp_size, content_type, error FROM transactions WHERE 1=1"@
                    + #[trigger] ands_text(all) + " ORDER BY id DESC LIMIT "@
                    + #[trigger] text::decimal_of(n)
                &&& forall|row: RowColumns|
                    row.id <= i64::MAX ==> (#[trigger] row_satisfies(all, arg_views(r.args@), row)
                        <==> selected(*filter, row))
                &&& n <= 5000
                &&& filter.limit is None ==> n == 500
                &&& filter.limit matches Some(wanted) ==> n == wanted || wanted > 5000 && n == 5000
            },
{
    let f = *filter;
    let cs = conditions(f);
    let all = all_tests(cs);
    lemma_clauses_are_written(cs);
    assert forall|row: RowColumns| row.id <= i64::MAX implies (#[trigger] row_satisfies(
        all,
        arg_views(r.args@),
        row,
    ) <==> selected(f, row)) by {
        law_query_selects_matching_rows(f, row);
        assert forall|i: int| 0 <= i < cs.len() implies (some_true(
            #[trigger] all[i],
            args_of(cs),
            row,
        ) <==> holds(cs[i], row)) by {
            lemma_tests_mean_the_conditions(cs, row, i);
        }
        if row_satisfies(all, args_of(cs), row) {
            assert forall|i: int| 0 <= i < cs.len() implies holds(#[trigger] cs[i], row) by {
                assert(some_true(all[i], args_of(cs), row));
            }
        }
        if selected(f, row) {
            assert forall|i: int| 0 <= i < all.len() implies some_true(
                #[trigger] all[i],
                args_of(cs),
                row,
            ) by {
                assert(holds(cs[i], row));
            }
        }
    }
    let n = row_limit(f);
    assert(r.sql@ == select_head() + ands_text(all) + " ORDER BY id DESC LIMIT "@
        + text::decimal_of(n));
}

/// Whether a text holds another, ASCII letters in either case: from some
/// position on the characters agree one by one.
pub open spec fn holds_in_any_case(s: Seq<char>, part: Seq<char>) -> bool {
    exists|i: int| agrees_from(s, part, i)
}

/// Whether the characters of `part` stand in `s` from position `i` on, ASCII
/// letters in either case.
pub open spec fn agrees_from(s: Seq<char>, part: Seq<char>, i: int) -> bool {
    &&& 0 <= i
    &&& i + part.len() <= s.len()
    &&& forall|k: int|
        0 <= k < part.len() ==> text::same_but_for_case(#[trigger] part[k], s[i + k])
}

/// Holding a text in either case is holding it once both are folded.
proof fn lemma_held_when_folded(s: Seq<char>, part: Seq<char>)
    ensures
        text::contains_text(text::lower(s), text::lower(part)) <==> holds_in_any_case(s, part),
{
    let a = text::lower(s);
    let b = text::lower(part);
    assert(a.len() == s.len() && b.len() == part.len());
    if text::contains_text(a, b) {
        let i = choose|i: int| text::occurs_at(a, b, i);
        let there = s.subrange(i, i + part.len());
        assert(a.subrange(i, i + b.len()) =~= text::lower(there));
        text::law_folded_texts_agree(part, there);
        assert(agrees_from(s, part, i));
    }
    if holds_in_any_case(s, part) {
        let i = choose|i: int| agrees_from(s, part, i);
        let there = s.subrange(i, i + part.len());
        text::law_folded_texts_agree(part, there);
        assert(a.subrange(i, i + b.len()) =~= text::lower(there));
        assert(text::occurs_at(a, b, i));
    }
}

/// What a filter asks for: every part of it that is there holds of the row. A
/// search is found in the host or in the path; the host, the method and the
/// status are equal to those given; the identifier is below the given one. A
/// filter with no part asks for every row.
pub proof fn law_filter_asks_for_every_part(f: QueryFilter, row: RowColumns)
    ensures
        selected(f, row) ==> {
            &&& f.search is Some ==> holds_in_any_case(row.host, f.search->0@)
                || holds_in_any_case(row.path, f.search->0@)
            &&& f.host is Some ==> row.host == f.host->0@
            &&& f.method is Some ==> row.method == f.method->0@
            &&& f.status is Some ==> row.status == Some(f.status->0 as int)
            &&& f.before_id is Some ==> row.id < f.before_id->0
        },
        ({
            &&& f.search is None || holds_in_any_case(row.host, f.search->0@) || holds_in_any_case(
                row.path,
                f.search->0@,
            )
            &&& f.host is None || row.host == f.host->0@
            &&& f.method is None || row.method == f.method->0@
            &&& f.status is None || row.status == Some(f.status->0 as int)
            &&& f.before_id is None || row.id < f.before_id->0
        }) ==> selected(f, row),
{
    if f.search is Some {
        lemma_held_when_folded(row.host, f.search->0@);
        lemma_held_when_folded(row.path, f.search->0@);
        if f.search->0@.len() == 0 {
            assert(agrees_from(row.host, f.search->0@, 0));
        }
    }
}

/// In a `LIKE` pattern `%` stands for any text, `_` for any one character, and
/// a character after the escape character, or any other one, for itself in
/// either case.
pub proof fn law_like_wildcards(pattern: Seq<char>, s: Seq<char>, c: char)
    ensures
        like(seq!['%'] + pattern, s) <==> exists|k: int|
            0 <= k <= s.len() && like(pattern, #[trigger] s.skip(k)),
        like(seq!['_'] + pattern, s) <==> s.len() > 0 && like(pattern, s.skip(1)),
        like(seq!['\\', c] + pattern, s) <==> s.len() > 0 && text::same_but_for_case(c, s[0])
            && like(pattern, s.skip(1)),
        c != '%' && c != '_' && c != '\\' ==> (like(seq![c] + pattern, s) <==> s.len() > 0
            && text::same_but_for_case(c, s[0]) && like(pattern, s.skip(1))),
        like(Seq::empty(), s) <==> s.len() == 0,
{
    lemma_percent(pattern, s);
    assert((seq!['_'] + pattern).skip(1) =~= pattern);
    assert((seq!['\\', c] + pattern).skip(2) =~= pattern);
    assert((seq![c] + pattern).skip(1) =~= pattern);
    if s.len() > 0 {
        text::law_folding_is_case_only(c, s[0]);
    }
}

/// A `%` passes over any beginning of the text.
proof fn lemma_percent(pattern: Seq<char>, s: Seq<char>)
    ensures
        like(seq!['%'] + pattern, s) <==> exists|k: int|
            0 <= k <= s.len() && like(pattern, #[trigger] s.skip(k)),
    decreases s.len(),
{
    let p = seq!['%'] + pattern;
    assert(p.skip(1) =~= pattern);
    assert(s.skip(0) =~= s);
    if s.len() > 0 {
        let t = s.skip(1);
        lemma_percent(pattern, t);
        if exists|k: int| 0 <= k <= t.len() && like(pattern, #[trigger] t.skip(k)) {
            let k = choose|k: int| 0 <= k <= t.len() && like(pattern, #[trigger] t.skip(k));
            assert(t.skip(k) =~= s.skip(k + 1));
        }
        if exists|k: int| 0 <= k <= s.len() && like(pattern, #[trigger] s.skip(k)) {
            let k = choose|k: int| 0 <= k <= s.len() && like(pattern, #[trigger] s.skip(k));
            if k > 0 {
                assert(t.skip(k - 1) =~= s.skip(k));
            }
        }
    }
    if like(p, s) && like(pattern, s) {
        assert(like(pattern, s.skip(0)));
    }
}

/// The pattern of a search has `%` at both ends, and in between an escape
/// character before every character that would stand for something else.
pub proof fn law_search_pattern_escapes(a: Seq<char>, c: char)
    ensures
        like_pattern(Seq::empty()) == seq!['%', '%'],
        c == '%' || c == '_' || c == '\\' ==> like_pattern(a.push(c)) == like_pattern(
            a,
        ).drop_last() + seq!['\\', c, '%'],
        c != '%' && c != '_' && c != '\\' ==> like_pattern(a.push(c)) == like_pattern(
            a,
        ).drop_last() + seq![c, '%'],
{
    lemma_literal_grows(a, c);
    assert(like_pattern(a).drop_last() =~= seq!['%'] + like_literal(a));
    assert(like_pattern(Seq::empty()) =~= seq!['%', '%']);
    if is_wildcard(c) {
        assert(like_pattern(a.push(c)) =~= like_pattern(a).drop_last() + seq!['\\', c, '%']);
    } else {
        assert(like_pattern(a.push(c)) =~= like_pattern(a).drop_last() + seq![c, '%']);
    }
}

/// A literal is made character by character.
proof fn lemma_literal_grows(a: Seq<char>, c: char)
    ensures
        like_literal(a.push(c)) == like_literal(a) + (if is_wildcard(c) {
            seq!['\\', c]
        } else {
            seq![c]
        }),
    decreases a.len(),
{
    let more = a.push(c);
    if a.len() == 0 {
        reveal_with_fuel(like_literal, 2);
        assert(more.skip(1) =~= Seq::<char>::empty());
    } else {
        lemma_literal_grows(a.skip(1), c);
        assert(more.skip(1) =~= a.skip(1).push(c));
        assert(more[0] == a[0]);
    }
    assert(like_literal(more) =~= like_literal(a) + (if is_wildcard(c) {
        seq!['\\', c]
    } else {
        seq![c]
    }));
}

/// In which order a statement returns rows, by their identifiers.
pub enum SqlOrder {
    Ascending,
    Descending,
}

/// An order in SQL.
pub open spec fn order_text(order: SqlOrder) -> Seq<char> {
    match order {
        SqlOrder::Ascending => "ASC"@,
        SqlOrder::Descending => "DESC"@,
    }
}

/// A statement on transactions in SQL: its conditions, its order, and how many
/// rows it returns at most.
pub open spec fn statement_text(all: Seq<Seq<SqlTest>>, order: SqlOrder, n: nat) -> Seq<char> {
    "SELECT id, started_at, duration_ms, kind, scheme, method, host, path, query, status, req_size, resp_size, content_type, error FROM transactions WHERE 1=1"@
        + ands_text(all) + " ORDER BY id "@ + order_text(order) + " LIMIT "@ + text::decimal_of(n)
}

/// Whether the row `a` is returned before the row `b`.
pub open spec fn goes_before(order: SqlOrder, a: int, b: int) -> bool {
    match order {
        SqlOrder::Ascending => a < b,
        SqlOrder::Descending => a > b,
    }
}

/// What a statement returns of a table, by identifiers: the first rows in its
/// order of those that satisfy its conditions, as many as it returns at most.
pub open spec fn is_returned(
    all: Seq<Seq<SqlTest>>,
    args: Seq<SqlArg>,
    order: SqlOrder,
    n: nat,
    table: Map<int, RowColumns>,
    page: Seq<int>,
) -> bool {
    &&& page.len() <= n
    &&& forall|i: int, j: int|
        0 <= i < j < page.len() ==> goes_before(order, #[trigger] page[i], #[trigger] page[j])
    &&& forall|i: int|
        0 <= i < page.len() ==> table.contains_key(#[trigger] page[i]) && row_satisfies(
            all,
            args,
            table[page[i]],
        )
    &&& forall|id: int|
        #![trigger table[id]]
        table.contains_key(id) && row_satisfies(all, args, table[id]) && !page.contains(id) ==> {
            &&& page.len() == n
            &&& forall|i: int| 0 <= i < page.len() ==> goes_before(order, #[trigger] page[i], id)
        }
}

/// The text of the statement, read as SQL, returns of every table the page
/// that the filter asks for: the newest rows that match it, newest first.
pub proof fn law_statement_returns_the_page(
    filter: &QueryFilter,
    r: SqlQuery,
    table: Map<int, RowColumns>,
    page: Seq<int>,
)
    requires
        call_ensures(query, (filter,), r),
        forall|k: int| #[trigger] table.contains_key(k) ==> table[k].id == k && k <= i64::MAX,
    ensures
        exists|all: Seq<Seq<SqlTest>>, order: SqlOrder, n: nat|
            r.sql@ == #[trigger] statement_text(all, order, n) && (is_returned(
                all,
                arg_views(r.args@),
                order,
                n,
                table,
                page,
            ) <==> is_page(*filter, table, page)),
{
    law_statement_text_selects_what_is_asked_for(filter, r);
    let (all, n) = choose|all: Seq<Seq<SqlTest>>, n: nat|
        {
            &&& r.sql@
                == "SELECT id, started_at, duration_ms, kind, scheme, method, host, path, query, status, req_size, resp_size, content_type, error FROM transactions WHERE 1=1"@
                + #[trigger] ands_text(all) + " ORDER BY id DESC LIMIT "@
                + #[trigger] text::decimal_of(n)
            &&& forall|row: RowColumns|
                row.id <= i64::MAX ==> (#[trigger] row_satisfies(all, arg_views(r.args@), row)
                    <==> selected(*filter, row))
            &&& n <= 5000
            &&& filter.limit is None ==> n == 500
            &&& filter.limit matches Some(wanted) ==> n == wanted || wanted > 5000 && n == 5000
        };
    let order = SqlOrder::Descending;
    let args = arg_views(r.args@);
    reveal_strlit(" ORDER BY id DESC LIMIT ");
    reveal_strlit(" ORDER BY id ");
    reveal_strlit("DESC");
    reveal_strlit(" LIMIT ");
    assert(" ORDER BY id DESC LIMIT "@ =~= " ORDER BY id "@ + "DESC"@ + " LIMIT "@);
    assert(r.sql@ =~= statement_text(all, order, n));
    assert(n == row_limit(*filter));
    assert forall|k: int| #[trigger] table.contains_key(k) implies (row_satisfies(
        all,
        args,
        table[k],
    ) <==> selected(*filter, table[k])) by {}
    if is_returned(all, args, order, n, table, page) {
        assert forall|i: int, j: int| 0 <= i < j < page.len() implies page[i] > page[j] by {
            assert(goes_before(order, page[i], page[j]));
        }
        assert forall|id: int|
            #![trigger table[id]]
            table.contains_key(id) && selected(*filter, table[id]) && !page.contains(id) implies {
            &&& page.len() == row_limit(*filter)
            &&& forall|i: int| 0 <= i < page.len() ==> id < #[trigger] page[i]
        } by {
            assert(row_satisfies(all, args, table[id]));
            assert forall|i: int| 0 <= i < page.len() implies id < #[trigger] page[i] by {
                assert(goes_before(order, page[i], id));
            }
        }
        assert(is_page(*filter, table, page));
    }
    if is_page(*filter, table, page) {
        assert forall|id: int|
            #![trigger table[id]]
            table.contains_key(id) && row_satisfies(all, args, table[id]) && !page.contains(
                id,
            ) implies {
            &&& page.len() == n
            &&& forall|i: int| 0 <= i < page.len() ==> goes_before(order, #[trigger] page[i], id)
        } by {
            assert(selected(*filter, table[id]));
        }
        assert(is_returned(all, args, order, n, table, page));
    }
}

} // verus!
