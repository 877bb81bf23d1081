use vstd::prelude::*;
use crate::chars::concat_chars;

verus! {

/// A field body with every quote written twice.
pub open spec fn doubled(f: Seq<char>) -> Seq<char>
    decreases f.len(),
{
    if f.len() == 0 {
        Seq::<char>::empty()
    } else if f[0] == '"' {
        seq!['"', '"'] + doubled(f.drop_first())
    } else {
        seq![f[0]] + doubled(f.drop_first())
    }
}

/// A field written in quotes, with inner quotes doubled. Every field is
/// written quoted, so any character, commas and line breaks included, may
/// stand in a field.
pub open spec fn quoted(f: Seq<char>) -> Seq<char> {
    seq!['"'] + doubled(f) + seq!['"']
}

/// A record: its fields quoted and joined with commas.
pub open spec fn render_fields(fs: Seq<Seq<char>>) -> Seq<char>
    decreases fs.len(),
{
    if fs.len() == 0 {
        Seq::<char>::empty()
    } else if fs.len() == 1 {
        quoted(fs[0])
    } else {
        quoted(fs[0]) + seq![','] + render_fields(fs.drop_first())
    }
}

/// A table: each record on its own line, every line closed by a newline.
pub open spec fn render_rows(rows: Seq<Seq<Seq<char>>>) -> Seq<char>
    decreases rows.len(),
{
    if rows.len() == 0 {
        Seq::<char>::empty()
    } else {
        render_fields(rows[0]) + seq!['\n'] + render_rows(rows.drop_first())
    }
}

/// Reads the body of a quoted field from just after its opening quote:
/// a doubled quote stands for one quote character, a lone quote closes the
/// field, and a field still open at the end of the text is malformed.
/// Yields the field body and the position just after the closing quote.
pub open spec fn parse_quoted_body(s: Seq<char>, j: int) -> Option<(Seq<char>, int)>
    decreases s.len() - j,
{
    if j < 0 || j >= s.len() {
        None
    } else if s[j] == '"' {
        if j + 1 < s.len() && s[j + 1] == '"' {
            match parse_quoted_body(s, j + 2) {
                Some(p) => Some((seq!['"'] + p.0, p.1)),
                None => None,
            }
        } else {
            Some((Seq::<char>::empty(), j + 1))
        }
    } else {
        match parse_quoted_body(s, j + 1) {
            Some(p) => Some((seq![s[j]] + p.0, p.1)),
            None => None,
        }
    }
}

/// The end of an unquoted field: the first comma or line break at or after
/// `i`, or the end of the text.
pub open spec fn scan_unquoted(s: Seq<char>, i: int) -> int
    decreases s.len() - i,
{
    if i < 0 || i >= s.len() {
        s.len() as int
    } else if s[i] == ',' || s[i] == '\n' {
        i
    } else {
        scan_unquoted(s, i + 1)
    }
}

/// Reads one field starting at `i`: a quoted field when a quote opens it,
/// else the raw run up to the next comma or line break. Yields the field
/// and the position of the delimiter (or end) that stopped it.
pub open spec fn parse_field(s: Seq<char>, i: int) -> Option<(Seq<char>, int)> {
    if 0 <= i < s.len() && s[i] == '"' {
        parse_quoted_body(s, i + 1)
    } else {
        let j = scan_unquoted(s, i);
        Some((s.subrange(i, j), j))
    }
}

/// Reads one record starting at `i`: fields separated by commas, the record
/// closed by a line break or the end of the text. Anything but a delimiter
/// after a quoted field is malformed. Yields the fields and the position
/// just after the record.
pub open spec fn parse_fields_from(s: Seq<char>, i: int) -> Option<(Seq<Seq<char>>, int)>
    decreases s.len() - i,
{
    match parse_field(s, i) {
        None => None,
        Some(p) => {
            let f = p.0;
            let e = p.1;
            if e >= s.len() {
                Some((seq![f], s.len() as int))
            } else if s[e] == '\n' {
                Some((seq![f], e + 1))
            } else if s[e] == ',' && i <= e < s.len() {
                match parse_fields_from(s, e + 1) {
                    Some(q) => Some((seq![f] + q.0, q.1)),
                    None => None,
                }
            } else {
                None
            }
        },
    }
}

/// Reads every record of the text, in order; an empty text holds none.
pub open spec fn parse_rows_from(s: Seq<char>, i: int) -> Option<Seq<Seq<Seq<char>>>>
    decreases s.len() - i,
{
    if i >= s.len() {
        Some(Seq::<Seq<Seq<char>>>::empty())
    } else {
        match parse_fields_from(s, i) {
            None => None,
            Some(p) => {
                if i < p.1 <= s.len() {
                    match parse_rows_from(s, p.1) {
                        Some(rows) => Some(seq![p.0] + rows),
                        None => None,
                    }
                } else {
                    None
                }
            },
        }
    }
}

/// The whole table read from the top.
pub open spec fn parse_rows(s: Seq<char>) -> Option<Seq<Seq<Seq<char>>>> {
    parse_rows_from(s, 0)
}

/// Splits knowledge about a suffix of `s` written as `a + b`: where `b`
/// starts, and what characters `a` put into `s`.
proof fn lemma_skip_parts(s: Seq<char>, i: int, a: Seq<char>, b: Seq<char>)
    requires
        0 <= i <= s.len(),
        s.skip(i) == a + b,
    ensures
        i + a.len() + b.len() == s.len(),
        s.skip(i + a.len()) == b,
        forall|k: int| 0 <= k < a.len() ==> s[i + k] == #[trigger] a[k],
{
    assert(s.skip(i).len() == s.len() - i);
    assert forall|k: int| 0 <= k < a.len() implies s[i + k] == a[k] by {
        assert(s.skip(i)[k] == s[i + k]);
        assert((a + b)[k] == a[k]);
    }
    assert(s.skip(i + a.len()) =~= b) by {
        assert forall|k: int| 0 <= k < b.len() implies s.skip(i + a.len())[k] == b[k] by {
            assert(s.skip(i + a.len())[k] == s[i + a.len() + k]);
            assert(s.skip(i)[a.len() + k] == s[i + (a.len() + k)]);
            assert((a + b)[a.len() + k] == b[k]);
        }
    }
}

/// Reading a quoted body written by `doubled` returns the original field,
/// stopping exactly at the written closing quote, as long as what follows
/// the closing quote is not another quote.
proof fn lemma_parse_quoted_body(s: Seq<char>, j: int, f: Seq<char>, rest: Seq<char>)
    requires
        0 <= j <= s.len(),
        s.skip(j) == doubled(f) + seq!['"'] + rest,
        rest.len() == 0 || rest[0] != '"',
    ensures
        parse_quoted_body(s, j) == Some((f, j + doubled(f).len() + 1)),
    decreases f.len(),
{
    if f.len() == 0 {
        assert(doubled(f) =~= Seq::<char>::empty());
        assert(s.skip(j) =~= seq!['"'] + rest);
        lemma_skip_parts(s, j, seq!['"'], rest);
        assert((seq!['"'])[0] == '"');
        assert(s[j] == '"');
        if j + 1 < s.len() {
            assert(rest.len() > 0);
            lemma_skip_parts(s, j + 1, rest, Seq::<char>::empty());
            assert(s.skip(j + 1) =~= rest + Seq::<char>::empty());
            assert(s[j + 1] == rest[0]);
            assert(s[j + 1] != '"');
        }
    } else if f[0] == '"' {
        assert(doubled(f) == seq!['"', '"'] + doubled(f.drop_first()));
        let b = doubled(f.drop_first()) + seq!['"'] + rest;
        assert(s.skip(j) =~= seq!['"', '"'] + b);
        lemma_skip_parts(s, j, seq!['"', '"'], b);
        assert((seq!['"', '"'])[0] == '"');
        assert((seq!['"', '"'])[1] == '"');
        assert(s[j] == '"');
        assert(s[j + 1] == '"');
        assert(j + 1 < s.len());
        lemma_parse_quoted_body(s, j + 2, f.drop_first(), rest);
        assert(seq!['"'] + f.drop_first() =~= f);
        assert(doubled(f).len() == 2 + doubled(f.drop_first()).len());
    } else {
        assert(doubled(f) == seq![f[0]] + doubled(f.drop_first()));
        let b = doubled(f.drop_first()) + seq!['"'] + rest;
        assert(s.skip(j) =~= seq![f[0]] + b);
        lemma_skip_parts(s, j, seq![f[0]], b);
        assert((seq![f[0]])[0] == f[0]);
        assert(s[j] == f[0]);
        assert(s[j] != '"');
        lemma_parse_quoted_body(s, j + 1, f.drop_first(), rest);
        assert(seq![f[0]] + f.drop_first() =~= f);
        assert(doubled(f).len() == 1 + doubled(f.drop_first()).len());
    }
}

/// Reading a field written by `quoted` returns the original field and stops
/// at the delimiter written after it.
proof fn lemma_parse_field(s: Seq<char>, i: int, f: Seq<char>, rest: Seq<char>)
    requires
        0 <= i <= s.len(),
        s.skip(i) == quoted(f) + rest,
        rest.len() == 0 || rest[0] == ',' || rest[0] == '\n',
    ensures
        parse_field(s, i) == Some((f, i + quoted(f).len())),
        i + quoted(f).len() == s.len() - rest.len(),
    decreases f.len(),
{
    let b = doubled(f) + seq!['"'] + rest;
    assert(s.skip(i) =~= seq!['"'] + b);
    lemma_skip_parts(s, i, seq!['"'], b);
    assert((seq!['"'])[0] == '"');
    assert(s[i] == '"');
    assert(i < s.len());
    lemma_parse_quoted_body(s, i + 1, f, rest);
    assert(quoted(f).len() == doubled(f).len() + 2);
}

/// Reading a record written by `render_fields` returns the original fields
/// and consumes the written closing newline.
proof fn lemma_parse_fields(s: Seq<char>, i: int, fields: Seq<Seq<char>>, rest: Seq<char>)
    requires
        fields.len() >= 1,
        0 <= i <= s.len(),
        s.skip(i) == render_fields(fields) + seq!['\n'] + rest,
    ensures
        parse_fields_from(s, i) == Some(
            (fields, i + render_fields(fields).len() + 1),
        ),
        i + render_fields(fields).len() + 1 == s.len() - rest.len(),
    decreases fields.len(),
{
    if fields.len() == 1 {
        assert(render_fields(fields) == quoted(fields[0]));
        let after = seq!['\n'] + rest;
        assert(s.skip(i) =~= quoted(fields[0]) + after);
        lemma_parse_field(s, i, fields[0], after);
        let e = i + quoted(fields[0]).len();
        lemma_skip_parts(s, i, quoted(fields[0]), after);
        lemma_skip_parts(s, e, seq!['\n'], rest);
        assert((seq!['\n'])[0] == '\n');
        assert(s[e] == '\n');
        assert(seq![fields[0]] =~= fields);
    } else {
        assert(render_fields(fields) == quoted(fields[0]) + seq![','] + render_fields(
            fields.drop_first(),
        ));
        let after = seq![','] + (render_fields(fields.drop_first()) + seq!['\n'] + rest);
        assert(s.skip(i) =~= quoted(fields[0]) + after);
        lemma_parse_field(s, i, fields[0], after);
        let e = i + quoted(fields[0]).len();
        lemma_skip_parts(s, i, quoted(fields[0]), after);
        lemma_skip_parts(s, e, seq![','], render_fields(fields.drop_first()) + seq!['\n']
            + rest);
        assert((seq![','])[0] == ',');
        assert(s[e] == ',');
        assert(e < s.len());
        lemma_parse_fields(s, e + 1, fields.drop_first(), rest);
        assert(seq![fields[0]] + fields.drop_first() =~= fields);
        assert(render_fields(fields).len() == quoted(fields[0]).len() + 1 + render_fields(
            fields.drop_first(),
        ).len());
    }
}

/// Reading a table written by `render_rows` returns the original records:
/// the parser inverts the printer on every table whose records all hold at
/// least one field.
pub proof fn lemma_parse_render_rows(s: Seq<char>, i: int, rows: Seq<Seq<Seq<char>>>)
    requires
        0 <= i <= s.len(),
        s.skip(i) == render_rows(rows),
        forall|k: int| 0 <= k < rows.len() ==> #[trigger] rows[k].len() >= 1,
    ensures
        parse_rows_from(s, i) == Some(rows),
    decreases rows.len(),
{
    if rows.len() == 0 {
        assert(s.skip(i) =~= Seq::<char>::empty());
        assert(s.skip(i).len() == s.len() - i);
        assert(i >= s.len());
    } else {
        assert(render_rows(rows) == render_fields(rows[0]) + seq!['\n'] + render_rows(
            rows.drop_first(),
        ));
        assert(rows[0].len() >= 1);
        lemma_parse_fields(s, i, rows[0], render_rows(rows.drop_first()));
        let e = i + render_fields(rows[0]).len() + 1;
        lemma_skip_parts(s, i, render_fields(rows[0]) + seq!['\n'], render_rows(
            rows.drop_first(),
        ));
        assert(s.skip(i) =~= (render_fields(rows[0]) + seq!['\n']) + render_rows(
            rows.drop_first(),
        ));
        assert(s.skip(e) == render_rows(rows.drop_first()));
        assert(forall|k: int|
            0 <= k < rows.drop_first().len() ==> #[trigger] rows.drop_first()[k].len()
                >= 1) by {
            assert(forall|k: int|
                0 <= k < rows.len() - 1 ==> rows.drop_first()[k] == rows[k + 1]);
        }
        lemma_parse_render_rows(s, e, rows.drop_first());
        assert(i < s.len()) by {
            assert(quoted(rows[0][0]).len() >= 2);
            assert(render_fields(rows[0]).len() >= 1);
        }
        assert(seq![rows[0]] + rows.drop_first() =~= rows);
    }
}

/// The records of a table: deep views of the vectors.
pub open spec fn rows_view(rows: Seq<Vec<Vec<char>>>) -> Seq<Seq<Seq<char>>> {
    rows.map_values(|r: Vec<Vec<char>>| r@.map_values(|f: Vec<char>| f@))
}

/// Writes one field in quotes with inner quotes doubled, from position `k`
/// of the field onward.
fn doubled_from(f: &Vec<char>, k: usize) -> (r: Vec<char>)
    requires
        k <= f@.len(),
    ensures
        r@ == doubled(f@.skip(k as int)),
    decreases f@.len() - k,
{
    if k == f.len() {
        let r: Vec<char> = Vec::new();
        proof {
            assert(f@.skip(k as int) =~= Seq::<char>::empty());
        }
        r
    } else {
        let c = f[k];
        let rest = doubled_from(f, k + 1);
        let mut head: Vec<char> = Vec::new();
        head.push(c);
        if c == '"' {
            head.push('"');
        }
        let out = concat_chars(&head, &rest);
        proof {
            let t = f@.skip(k as int);
            assert(t[0] == c);
            assert(t.drop_first() =~= f@.skip(k + 1 as int));
            if c == '"' {
                assert(out@ =~= seq!['"', '"'] + doubled(t.drop_first()));
            } else {
                assert(out@ =~= seq![c] + doubled(t.drop_first()));
            }
        }
        out
    }
}

/// Writes one field in quotes.
fn quoted_exec(f: &Vec<char>) -> (r: Vec<char>)
    ensures
        r@ == quoted(f@),
{
    let body = doubled_from(f, 0);
    let mut out: Vec<char> = Vec::new();
    out.push('"');
    let mut out = concat_chars(&out, &body);
    out.push('"');
    proof {
        assert(f@.skip(0) =~= f@);
        assert(out@ =~= quoted(f@));
    }
    out
}

/// Writes a record from field `k` onward, fields quoted and joined with
/// commas.
fn render_fields_from(fields: &Vec<Vec<char>>, k: usize) -> (r: Vec<char>)
    requires
        k <= fields@.len(),
    ensures
        r@ == render_fields(fields@.map_values(|f: Vec<char>| f@).skip(k as int)),
    decreases fields@.len() - k,
{
    let ghost fv = fields@.map_values(|f: Vec<char>| f@);
    if k == fields.len() {
        let r: Vec<char> = Vec::new();
        proof {
            assert(fv.skip(k as int) =~= Seq::<Seq<char>>::empty());
        }
        r
    } else if k + 1 == fields.len() {
        let q = quoted_exec(&fields[k]);
        proof {
            let t = fv.skip(k as int);
            assert(t.len() == 1);
            assert(t[0] == fv[k as int]);
        }
        q
    } else {
        let mut q = quoted_exec(&fields[k]);
        q.push(',');
        let rest = render_fields_from(fields, k + 1);
        let out = concat_chars(&q, &rest);
        proof {
            let t = fv.skip(k as int);
            assert(t.len() >= 2);
            assert(t[0] == fv[k as int]);
            assert(t.drop_first() =~= fv.skip(k + 1 as int));
            assert(out@ =~= quoted(t[0]) + seq![','] + render_fields(t.drop_first()));
        }
        out
    }
}

/// Writes a table from record `k` onward, one record per line.
fn render_rows_from(rows: &Vec<Vec<Vec<char>>>, k: usize) -> (r: Vec<char>)
    requires
        k <= rows@.len(),
    ensures
        r@ == render_rows(rows_view(rows@).skip(k as int)),
    decreases rows@.len() - k,
{
    let ghost rv = rows_view(rows@);
    if k == rows.len() {
        let r: Vec<char> = Vec::new();
        proof {
            assert(rv.skip(k as int) =~= Seq::<Seq<Seq<char>>>::empty());
        }
        r
    } else {
        let mut line = render_fields_from(&rows[k], 0);
        line.push('\n');
        let rest = render_rows_from(rows, k + 1);
        let out = concat_chars(&line, &rest);
        proof {
            let t = rv.skip(k as int);
            assert(t[0] == rv[k as int]);
            assert(rv[k as int] == rows@[k as int]@.map_values(|f: Vec<char>| f@));
            assert(rows@[k as int]@.map_values(|f: Vec<char>| f@).skip(0)
                =~= rv[k as int]);
            assert(t.drop_first() =~= rv.skip(k + 1 as int));
            assert(out@ =~= render_fields(t[0]) + seq!['\n'] + render_rows(t.drop_first()));
        }
        out
    }
}

/// Writes a whole table.
pub fn render_rows_exec(rows: &Vec<Vec<Vec<char>>>) -> (r: Vec<char>)
    ensures
        r@ == render_rows(rows_view(rows@)),
{
    let out = render_rows_from(rows, 0);
    proof {
        assert(rows_view(rows@).skip(0) =~= rows_view(rows@));
    }
    out
}

/// A single character in front of a vector.
fn cons_char(c: char, v: Vec<char>) -> (r: Vec<char>)
    ensures
        r@ == seq![c] + v@,
{
    let mut head: Vec<char> = Vec::new();
    head.push(c);
    let r = concat_chars(&head, &v);
    proof {
        assert(r@ =~= seq![c] + v@);
    }
    r
}

/// Reads a quoted field body, as `parse_quoted_body` lays down.
fn parse_quoted_body_exec(s: &Vec<char>, j: usize) -> (r: Option<(Vec<char>, usize)>)
    requires
        j <= s@.len(),
    ensures
        match r {
            Some(p) => parse_quoted_body(s@, j as int) == Some((p.0@, p.1 as int)) && j < p.1
                <= s@.len(),
            None => parse_quoted_body(s@, j as int) is None,
        },
    decreases s@.len() - j,
{
    let n: usize = s.len();
    if j >= n {
        return None;
    }
    let c = s[j];
    if c == '"' {
        if j + 1 < n && s[j + 1] == '"' {
            match parse_quoted_body_exec(s, j + 2) {
                Some(p) => Some((cons_char('"', p.0), p.1)),
                None => None,
            }
        } else {
            let empty: Vec<char> = Vec::new();
            proof {
                assert(empty@ =~= Seq::<char>::empty());
            }
            Some((empty, j + 1))
        }
    } else {
        match parse_quoted_body_exec(s, j + 1) {
            Some(p) => Some((cons_char(c, p.0), p.1)),
            None => None,
        }
    }
}

/// Reads one field, as `parse_field` lays down.
fn parse_field_exec(s: &Vec<char>, i: usize) -> (r: Option<(Vec<char>, usize)>)
    requires
        i <= s@.len(),
    ensures
        match r {
            Some(p) => parse_field(s@, i as int) == Some((p.0@, p.1 as int)) && i <= p.1
                <= s@.len(),
            None => parse_field(s@, i as int) is None,
        },
{
    let n: usize = s.len();
    if i < n && s[i] == '"' {
        match parse_quoted_body_exec(s, i + 1) {
            Some(p) => Some(p),
            None => None,
        }
    } else {
        let mut j: usize = i;
        loop
            invariant
                i <= j <= n,
                n == s@.len(),
                scan_unquoted(s@, i as int) == scan_unquoted(s@, j as int),
            decreases n - j,
        {
            if j >= n {
                break ;
            }
            let c = s[j];
            if c == ',' || c == '\n' {
                break ;
            }
            j = j + 1;
        }
        proof {
            assert(scan_unquoted(s@, j as int) == j);
        }
        let f = crate::chars::subvec(s, i, j);
        Some((f, j))
    }
}

/// Reads one record, as `parse_fields_from` lays down.
fn parse_fields_from_exec(s: &Vec<char>, i: usize) -> (r: Option<(Vec<Vec<char>>, usize)>)
    requires
        i <= s@.len(),
    ensures
        match r {
            Some(p) => parse_fields_from(s@, i as int) == Some(
                (p.0@.map_values(|f: Vec<char>| f@), p.1 as int),
            ) && i <= p.1 <= s@.len() && (i < s@.len() ==> i < p.1),
            None => parse_fields_from(s@, i as int) is None,
        },
    decreases s@.len() - i,
{
    let n: usize = s.len();
    match parse_field_exec(s, i) {
        None => None,
        Some(p) => {
            let f = p.0;
            let e = p.1;
            if e >= n {
                let mut one: Vec<Vec<char>> = Vec::new();
                one.push(f);
                proof {
                    assert(one@.map_values(|x: Vec<char>| x@) =~= seq![p.0@]);
                }
                Some((one, n))
            } else if s[e] == '\n' {
                let mut one: Vec<Vec<char>> = Vec::new();
                one.push(f);
                proof {
                    assert(one@.map_values(|x: Vec<char>| x@) =~= seq![p.0@]);
                }
                Some((one, e + 1))
            } else if s[e] == ',' {
                match parse_fields_from_exec(s, e + 1) {
                    Some(q) => {
                        let ghost f0 = f@;
                        let ghost morev = q.0@;
                        let mut out: Vec<Vec<char>> = Vec::new();
                        out.push(f);
                        let mut more = q.0;
                        out.append(&mut more);
                        proof {
                            assert(out@.map_values(|x: Vec<char>| x@) =~= seq![f0]
                                + morev.map_values(|x: Vec<char>| x@));
                        }
                        Some((out, q.1))
                    },
                    None => None,
                }
            } else {
                None
            }
        },
    }
}

/// Reads every record of a table, as `parse_rows_from` lays down.
fn parse_rows_from_exec(s: &Vec<char>, i: usize) -> (r: Option<Vec<Vec<Vec<char>>>>)
    requires
        i <= s@.len(),
    ensures
        match r {
            Some(rows) => parse_rows_from(s@, i as int) == Some(rows_view(rows@)),
            None => parse_rows_from(s@, i as int) is None,
        },
    decreases s@.len() - i,
{
    let n: usize = s.len();
    if i >= n {
        let empty: Vec<Vec<Vec<char>>> = Vec::new();
        proof {
            assert(rows_view(empty@) =~= Seq::<Seq<Seq<char>>>::empty());
        }
        return Some(empty);
    }
    match parse_fields_from_exec(s, i) {
        None => None,
        Some(p) => {
            match parse_rows_from_exec(s, p.1) {
                Some(rest) => {
                    let ghost fields0 = p.0@.map_values(|f: Vec<char>| f@);
                    let ghost restv = rows_view(rest@);
                    let mut out: Vec<Vec<Vec<char>>> = Vec::new();
                    out.push(p.0);
                    let mut more = rest;
                    out.append(&mut more);
                    proof {
                        assert(rows_view(out@) =~= seq![fields0] + restv);
                    }
                    Some(out)
                },
                None => None,
            }
        },
    }
}

/// Reads a whole table from the top.
pub fn parse_rows_exec(s: &Vec<char>) -> (r: Option<Vec<Vec<Vec<char>>>>)
    ensures
        match r {
            Some(rows) => parse_rows(s@) == Some(rows_view(rows@)),
            None => parse_rows(s@) is None,
        },
{
    parse_rows_from_exec(s, 0)
}

} // verus!
