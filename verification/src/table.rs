//! Delimited text tables, the wire form shared by the shareholder manifest
//! and the matrix contract: records are lines terminated by a line feed (an
//! optional carriage return before it is dropped), and each line is split
//! into fields on a single delimiter byte.
use vstd::prelude::*;

verus! {

/// Line feed, the record terminator.
pub const LF: u8 = 10;

/// Carriage return, dropped when it ends a line.
pub const CR: u8 = 13;

/// Index of the first occurrence of `d` in `s`, or `s.len()` if `s` has none.
pub open spec fn find_byte(s: Seq<u8>, d: u8) -> int
    decreases s.len(),
{
    if s.len() == 0 {
        0
    } else if s[0] == d {
        0
    } else {
        1 + find_byte(s.drop_first(), d)
    }
}

/// `find_byte` is pinned down by the first-occurrence property.
pub proof fn lemma_find_byte_is(s: Seq<u8>, d: u8, i: int)
    requires
        0 <= i <= s.len(),
        forall|k: int| 0 <= k < i ==> s[k] != d,
        i < s.len() ==> s[i] == d,
    ensures
        find_byte(s, d) == i,
    decreases s.len(),
{
    if s.len() != 0 && s[0] != d {
        assert forall|k: int| 0 <= k < i - 1 implies s.drop_first()[k] != d by {
            assert(s.drop_first()[k] == s[k + 1]);
        }
        if i - 1 < s.drop_first().len() {
            assert(s.drop_first()[i - 1] == s[i]);
        }
        lemma_find_byte_is(s.drop_first(), d, i - 1);
    }
}

/// The segments of `s` between occurrences of `d`. There is always at least
/// one segment; `n` delimiters give `n + 1` segments, empty ones included.
pub open spec fn split_on(s: Seq<u8>, d: u8) -> Seq<Seq<u8>>
    decreases s.len(),
{
    let i = find_byte(s, d);
    if 0 <= i < s.len() {
        seq![s.take(i)] + split_on(s.skip(i + 1), d)
    } else {
        seq![s]
    }
}

pub proof fn lemma_split_on_len(s: Seq<u8>, d: u8)
    ensures
        split_on(s, d).len() >= 1,
    decreases s.len(),
{
    let i = find_byte(s, d);
    if 0 <= i < s.len() {
        lemma_split_on_len(s.skip(i + 1), d);
    }
}

/// The segments joined back together with `d` between them.
pub open spec fn join_with(segs: Seq<Seq<u8>>, d: u8) -> Seq<u8>
    decreases segs.len(),
{
    if segs.len() == 0 {
        Seq::empty()
    } else if segs.len() == 1 {
        segs[0]
    } else {
        segs[0] + seq![d] + join_with(segs.drop_first(), d)
    }
}

/// Joining segments free of `d` and splitting again gives the segments back.
pub proof fn lemma_split_of_join(segs: Seq<Seq<u8>>, d: u8)
    requires
        segs.len() >= 1,
        forall|i: int| 0 <= i < segs.len() ==> !(#[trigger] segs[i]).contains(d),
    ensures
        split_on(join_with(segs, d), d) == segs,
    decreases segs.len(),
{
    let j = join_with(segs, d);
    if segs.len() == 1 {
        assert forall|k: int| 0 <= k < j.len() implies j[k] != d by {
            assert(segs[0].contains(d) == false);
            assert(segs[0][k] == j[k]);
        }
        lemma_find_byte_is(j, d, j.len() as int);
        assert(split_on(j, d) =~= segs);
    } else {
        let head = segs[0];
        let rest = join_with(segs.drop_first(), d);
        assert(j =~= head + seq![d] + rest);
        assert forall|k: int| 0 <= k < head.len() implies j[k] != d by {
            assert(head.contains(d) == false);
            assert(j[k] == head[k]);
        }
        assert(j[head.len() as int] == d);
        lemma_find_byte_is(j, d, head.len() as int);
        assert(j.take(head.len() as int) =~= head);
        assert(j.skip(head.len() as int + 1) =~= rest);
        lemma_split_of_join(segs.drop_first(), d);
        assert(split_on(j, d) =~= seq![head] + split_on(rest, d));
        assert(split_on(j, d) =~= segs);
    }
}

/// A join of segments free of some byte `c` (with a delimiter other than `c`)
/// is itself free of `c`.
pub proof fn lemma_join_free_of(segs: Seq<Seq<u8>>, d: u8, c: u8)
    requires
        d != c,
        forall|i: int| 0 <= i < segs.len() ==> !(#[trigger] segs[i]).contains(c),
    ensures
        !join_with(segs, d).contains(c),
    decreases segs.len(),
{
    let j = join_with(segs, d);
    if segs.len() == 0 {
    } else if segs.len() == 1 {
        assert forall|k: int| 0 <= k < j.len() implies j[k] != c by {
            assert(segs[0].contains(c) == false);
            assert(segs[0][k] == j[k]);
        }
        assert(!j.contains(c));
    } else {
        lemma_join_free_of(segs.drop_first(), d, c);
        let rest = join_with(segs.drop_first(), d);
        assert forall|k: int| 0 <= k < j.len() implies j[k] != c by {
            let h = segs[0].len() as int;
            if k < h {
                assert(segs[0].contains(c) == false);
                assert(j[k] == segs[0][k]);
            } else if k == h {
                assert(j[k] == d);
            } else {
                assert(j[k] == rest[k - h - 1]);
                assert(rest.contains(c) == false);
            }
        }
        assert(!j.contains(c));
    }
}

/// A line with a final carriage return dropped.
pub open spec fn strip_cr(line: Seq<u8>) -> Seq<u8> {
    if line.len() > 0 && line.last() == CR {
        line.drop_last()
    } else {
        line
    }
}

/// The records of a delimited file: segments between line feeds, a trailing
/// empty segment (from a final terminator) dropped, carriage returns before
/// the terminators dropped.
pub open spec fn lines_of(data: Seq<u8>) -> Seq<Seq<u8>> {
    let parts = split_on(data, LF);
    let trimmed = if parts.last().len() == 0 {
        parts.drop_last()
    } else {
        parts
    };
    trimmed.map_values(|l: Seq<u8>| strip_cr(l))
}

/// The whole table: every record split into fields on `d`.
pub open spec fn table_of(data: Seq<u8>, d: u8) -> Seq<Seq<Seq<u8>>> {
    lines_of(data).map_values(|l: Seq<u8>| split_on(l, d))
}

/// The wire form of a table: every row's fields joined with `d`, every row
/// terminated by a line feed.
pub open spec fn render_table(rows: Seq<Seq<Seq<u8>>>, d: u8) -> Seq<u8>
    decreases rows.len(),
{
    if rows.len() == 0 {
        Seq::empty()
    } else {
        join_with(rows[0], d) + seq![LF] + render_table(rows.drop_first(), d)
    }
}

/// Rendering rows and splitting on the terminator again gives every joined
/// row back, plus the one empty segment after the final terminator.
pub proof fn lemma_split_render(rows: Seq<Seq<Seq<u8>>>, d: u8)
    requires
        d != LF,
        forall|i: int, j: int|
            0 <= i < rows.len() && 0 <= j < rows[i].len() ==> !(#[trigger] rows[i][j]).contains(LF),
    ensures
        split_on(render_table(rows, d), LF) == rows.map_values(|r: Seq<Seq<u8>>| join_with(r, d))
            + seq![Seq::<u8>::empty()],
    decreases rows.len(),
{
    let whole = render_table(rows, d);
    let mapped = rows.map_values(|r: Seq<Seq<u8>>| join_with(r, d));
    if rows.len() == 0 {
        assert(whole.len() == 0);
        lemma_find_byte_is(whole, LF, 0);
        assert(split_on(whole, LF) =~= mapped + seq![Seq::<u8>::empty()]);
    } else {
        let head = join_with(rows[0], d);
        let rest = render_table(rows.drop_first(), d);
        lemma_join_free_of(rows[0], d, LF);
        assert(whole =~= head + seq![LF] + rest);
        assert forall|k: int| 0 <= k < head.len() implies whole[k] != LF by {
            assert(head.contains(LF) == false);
            assert(whole[k] == head[k]);
        }
        assert(whole[head.len() as int] == LF);
        lemma_find_byte_is(whole, LF, head.len() as int);
        assert(whole.take(head.len() as int) =~= head);
        assert(whole.skip(head.len() as int + 1) =~= rest);
        assert forall|i: int, j: int|
            0 <= i < rows.drop_first().len() && 0 <= j < rows.drop_first()[i].len() implies !(
        #[trigger] rows.drop_first()[i][j]).contains(LF) by {
            assert(rows.drop_first()[i] == rows[i + 1]);
        }
        lemma_split_render(rows.drop_first(), d);
        assert(split_on(whole, LF) =~= mapped + seq![Seq::<u8>::empty()]);
    }
}

/// Whether every row of the table can be rendered and read back: at least one
/// field per row, and no field holding the delimiter or a line terminator.
pub open spec fn renderable(rows: Seq<Seq<Seq<u8>>>, d: u8) -> bool {
    &&& d != LF
    &&& d != CR
    &&& forall|i: int| 0 <= i < rows.len() ==> (#[trigger] rows[i]).len() >= 1
    &&& forall|i: int, j: int|
        0 <= i < rows.len() && 0 <= j < rows[i].len() ==> {
            let f = #[trigger] rows[i][j];
            !f.contains(d) && !f.contains(LF) && !f.contains(CR)
        }
}

/// Round trip: a renderable table, written out and parsed again with the same
/// delimiter, comes back unchanged.
pub proof fn lemma_table_round_trip(rows: Seq<Seq<Seq<u8>>>, d: u8)
    requires
        renderable(rows, d),
    ensures
        table_of(render_table(rows, d), d) == rows,
{
    let whole = render_table(rows, d);
    let mapped = rows.map_values(|r: Seq<Seq<u8>>| join_with(r, d));
    lemma_split_render(rows, d);
    let parts = split_on(whole, LF);
    assert(parts.last().len() == 0);
    assert(parts.drop_last() =~= mapped);
    assert forall|i: int| 0 <= i < mapped.len() implies strip_cr(#[trigger] mapped[i])
        == mapped[i] by {
        lemma_join_free_of(rows[i], d, CR);
        if mapped[i].len() > 0 && mapped[i].last() == CR {
            assert(mapped[i].contains(CR));
        }
    }
    assert(lines_of(whole) =~= mapped);
    assert forall|i: int| 0 <= i < mapped.len() implies split_on(#[trigger] mapped[i], d)
        == rows[i] by {
        lemma_split_of_join(rows[i], d);
    }
    assert(table_of(whole, d) =~= rows);
}

/// The segments of `v` between occurrences of `d`, as owned vectors.
pub fn split_bytes(v: &[u8], d: u8) -> (r: Vec<Vec<u8>>)
    ensures
        r.deep_view() == split_on(v@, d),
{
    let mut r: Vec<Vec<u8>> = Vec::new();
    let mut start: usize = 0;
    proof {
        assert(v@.skip(0) =~= v@);
        assert(r.deep_view() + split_on(v@.skip(0), d) =~= split_on(v@, d));
    }
    loop
        invariant
            start <= v@.len(),
            split_on(v@, d) == r.deep_view() + split_on(v@.skip(start as int), d),
        decreases v@.len() - start,
    {
        let mut j = start;
        while j < v.len() && *vstd::slice::slice_index_get(v, j) != d
            invariant
                start <= j <= v@.len(),
                forall|k: int| start <= k < j ==> v@[k] != d,
            decreases v@.len() - j,
        {
            j = j + 1;
        }
        let ghost tail = v@.skip(start as int);
        proof {
            assert forall|k: int| 0 <= k < j - start implies tail[k] != d by {
                assert(tail[k] == v@[start + k]);
            }
            if j < v@.len() {
                assert(tail[j - start] == v@[j as int]);
            }
            lemma_find_byte_is(tail, d, j - start);
        }
        let seg = vstd::slice::slice_to_vec(vstd::slice::slice_subrange(v, start, j));
        proof {
            assert(seg@ =~= tail.take(j - start));
        }
        let ghost r_old = r.deep_view();
        r.push(seg);
        proof {
            assert(r.deep_view() =~~= r_old + seq![seg@]);
        }
        if j == v.len() {
            proof {
                assert(split_on(tail, d) =~= seq![tail]);
                assert(seg@ =~= tail);
                assert(r.deep_view() =~= split_on(v@, d));
            }
            return r;
        }
        proof {
            assert(split_on(tail, d) =~= seq![tail.take(j - start)] + split_on(
                tail.skip(j - start + 1),
                d,
            ));
            assert(tail.skip(j - start + 1) =~= v@.skip(j + 1));
        }
        start = j + 1;
    }
}

/// Parse a whole delimited file into its rows of fields.
pub fn parse_table(data: &[u8], d: u8) -> (r: Vec<Vec<Vec<u8>>>)
    ensures
        r.deep_view() == table_of(data@, d),
{
    let mut parts = split_bytes(data, LF);
    proof {
        lemma_split_on_len(data@, LF);
    }
    if parts[parts.len() - 1].len() == 0 {
        let _ = parts.pop();
    }
    let ghost trimmed = parts.deep_view();
    let mut r: Vec<Vec<Vec<u8>>> = Vec::new();
    let mut i: usize = 0;
    while i < parts.len()
        invariant
            0 <= i <= parts.len(),
            parts.deep_view() == trimmed,
            r.deep_view() =~= trimmed.take(i as int).map_values(
                |l: Seq<u8>| split_on(strip_cr(l), d),
            ),
        decreases parts.len() - i,
    {
        let line = &parts[i];
        let fields: Vec<Vec<u8>>;
        if line.len() > 0 && line[line.len() - 1] == CR {
            fields = split_bytes(vstd::slice::slice_subrange(line.as_slice(), 0, line.len() - 1), d);
            proof {
                assert(line@.subrange(0, line@.len() - 1) =~= strip_cr(trimmed[i as int]));
            }
        } else {
            fields = split_bytes(line.as_slice(), d);
            proof {
                assert(line@ =~= strip_cr(trimmed[i as int]));
            }
        }
        let ghost r_old = r.deep_view();
        r.push(fields);
        proof {
            assert(r.deep_view() =~= r_old + seq![fields.deep_view()]);
            assert(r.deep_view() =~= trimmed.take(i as int + 1).map_values(
                |l: Seq<u8>| split_on(strip_cr(l), d),
            ));
        }
        i = i + 1;
    }
    proof {
        assert(trimmed.take(trimmed.len() as int) =~= trimmed);
        assert(lines_of(data@) =~= trimmed.map_values(|l: Seq<u8>| strip_cr(l)));
        assert(r.deep_view() =~= table_of(data@, d));
    }
    r
}

/// Write rows of fields out as delimited lines, each terminated by `LF`.
pub fn render_rows(rows: &Vec<Vec<Vec<u8>>>, d: u8) -> (out: Vec<u8>)
    ensures
        out@ == render_table(rows.deep_view(), d),
{
    let mut out: Vec<u8> = Vec::new();
    let mut i: usize = 0;
    while i < rows.len()
        invariant
            0 <= i <= rows.len(),
            out@ =~= render_table(rows.deep_view().take(i as int), d),
        decreases rows.len() - i,
    {
        let row = &rows[i];
        let mut j: usize = 0;
        let ghost line_start = out@;
        while j < row.len()
            invariant
                0 <= j <= row.len(),
                out@ =~= line_start + join_with(row.deep_view().take(j as int), d) + (
                if 1 <= j < row.len() {
                    seq![d]
                } else {
                    Seq::<u8>::empty()
                }),
            decreases row.len() - j,
        {
            let field = &row[j];
            let mut k: usize = 0;
            let ghost field_start = out@;
            while k < field.len()
                invariant
                    0 <= k <= field.len(),
                    out@ =~= field_start + field@.take(k as int),
                decreases field.len() - k,
            {
                out.push(field[k]);
                k = k + 1;
            }
            proof {
                assert(field@.take(field@.len() as int) =~= field@);
                lemma_join_take_step(row.deep_view(), d, j as int);
            }
            if j + 1 < row.len() {
                out.push(d);
            }
            j = j + 1;
        }
        out.push(LF);
        proof {
            assert(row.deep_view().take(row@.len() as int) =~= row.deep_view());
            lemma_render_take_step(rows.deep_view(), d, i as int);
        }
        i = i + 1;
    }
    proof {
        assert(rows.deep_view().take(rows@.len() as int) =~= rows.deep_view());
    }
    out
}

/// Join of one more segment: the next segment goes on the end, behind a
/// delimiter when it is not the first.
proof fn lemma_join_take_step(segs: Seq<Seq<u8>>, d: u8, j: int)
    requires
        0 <= j < segs.len(),
    ensures
        j == 0 ==> join_with(segs.take(1), d) == segs[0],
        j > 0 ==> join_with(segs.take(j + 1), d) == join_with(segs.take(j), d) + seq![d]
            + segs[j],
    decreases j,
{
    if j == 0 {
        assert(segs.take(1) =~= seq![segs[0]]);
    } else {
        lemma_join_take_step(segs.drop_first(), d, j - 1);
        assert(segs.take(j + 1).drop_first() =~= segs.drop_first().take(j));
        assert(segs.take(j).drop_first() =~= segs.drop_first().take(j - 1));
        if j == 1 {
            assert(join_with(segs.take(2), d) =~= segs[0] + seq![d] + segs[1]);
            assert(join_with(segs.take(1), d) == segs.take(1)[0]);
            assert(segs.take(1)[0] == segs[0]);
        } else {
            assert(join_with(segs.take(j + 1), d) == segs.take(j + 1)[0] + seq![d] + join_with(
                segs.take(j + 1).drop_first(),
                d,
            ));
            assert(join_with(segs.take(j), d) == segs.take(j)[0] + seq![d] + join_with(
                segs.take(j).drop_first(),
                d,
            ));
            assert(segs.drop_first()[j - 1] == segs[j]);
            assert(join_with(segs.take(j + 1), d) =~= join_with(segs.take(j), d) + seq![d]
                + segs[j]);
        }
    }
}

/// Rendering one more row appends its joined fields and a terminator.
proof fn lemma_render_take_step(rows: Seq<Seq<Seq<u8>>>, d: u8, i: int)
    requires
        0 <= i < rows.len(),
    ensures
        render_table(rows.take(i + 1), d) == render_table(rows.take(i), d) + join_with(
            rows[i],
            d,
        ) + seq![LF],
    decreases i,
{
    if i == 0 {
        assert(rows.take(1) =~= seq![rows[0]]);
        assert(rows.take(1)[0] == rows[0]);
        assert(rows.take(1).drop_first() =~= Seq::<Seq<Seq<u8>>>::empty());
        assert(render_table(rows.take(1).drop_first(), d) == Seq::<u8>::empty());
        assert(rows.take(0).len() == 0);
        assert(render_table(rows.take(0), d) == Seq::<u8>::empty());
        assert(render_table(rows.take(1), d) =~= render_table(rows.take(0), d) + join_with(
            rows[0],
            d,
        ) + seq![LF]);
    } else {
        lemma_render_take_step(rows.drop_first(), d, i - 1);
        assert(rows.take(i + 1).drop_first() =~= rows.drop_first().take(i));
        assert(rows.take(i).drop_first() =~= rows.drop_first().take(i - 1));
        assert(rows.take(i + 1)[0] == rows[0]);
        assert(rows.take(i)[0] == rows[0]);
        assert(rows.drop_first()[i - 1] == rows[i]);
        assert(render_table(rows.take(i + 1), d) =~= render_table(rows.take(i), d) + join_with(
            rows[i],
            d,
        ) + seq![LF]);
    }
}

} // verus!
