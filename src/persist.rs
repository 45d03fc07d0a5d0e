use vstd::prelude::*;
use crate::delimited::{records, records_of, split_on, strip_cr, widths_agree, CARRIAGE_RETURN, COMMA, NEWLINE};
use crate::store::{join_fields, load_spec, render_records, TableView};

verus! {

/// A value that renders without breaking its line or its field.
pub open spec fn plain_value(v: Seq<u8>) -> bool {
    !v.contains(COMMA) && !v.contains(NEWLINE)
}

/// A record whose rendered line reads back as the same record: it has a
/// field, no field holds a separator, and its line is neither blank nor ends
/// in a carriage return.
pub open spec fn plain_record(rec: Seq<Seq<u8>>) -> bool {
    &&& rec.len() >= 1
    &&& forall|i: int| 0 <= i < rec.len() ==> plain_value(#[trigger] rec[i])
    &&& join_fields(rec).len() > 0
    &&& join_fields(rec).last() != CARRIAGE_RETURN
}

/// The rendered lines of some records.
pub open spec fn lines_of(recs: Seq<Seq<Seq<u8>>>) -> Seq<Seq<u8>> {
    Seq::new(recs.len(), |i: int| join_fields(recs[i]))
}

proof fn lemma_split_nonempty(s: Seq<u8>, sep: u8)
    ensures
        split_on(s, sep).len() >= 1,
    decreases s.len(),
{
    if s.len() > 0 {
        lemma_split_nonempty(s.drop_last(), sep);
    }
}

proof fn lemma_split_push_sep(s: Seq<u8>, sep: u8)
    ensures
        split_on(s.push(sep), sep) == split_on(s, sep).push(Seq::empty()),
{
    assert(s.push(sep).drop_last() =~= s);
}

/// Appending bytes without a separator extends the last piece.
proof fn lemma_split_append(x: Seq<u8>, y: Seq<u8>, sep: u8)
    requires
        !y.contains(sep),
    ensures
        split_on(x + y, sep) == split_on(x, sep).update(
            split_on(x, sep).len() - 1,
            split_on(x, sep).last() + y,
        ),
    decreases y.len(),
{
    let p = split_on(x, sep);
    lemma_split_nonempty(x, sep);
    if y.len() == 0 {
        assert(x + y =~= x);
        assert(p.update(p.len() - 1, p.last() + y) =~= p);
    } else {
        let y2 = y.drop_last();
        assert(!y2.contains(sep)) by {
            if y2.contains(sep) {
                let k = choose|k: int| 0 <= k < y2.len() && y2[k] == sep;
                assert(y[k] == sep);
            }
        }
        lemma_split_append(x, y2, sep);
        assert((x + y).drop_last() =~= x + y2);
        assert(y.last() != sep) by {
            if y.last() == sep {
                assert(y[y.len() - 1] == sep);
            }
        }
        let q = split_on(x + y2, sep);
        assert(split_on(x + y, sep) == q.update(q.len() - 1, q.last().push(y.last())));
        assert(q.last().push(y.last()) =~= p.last() + y);
        assert(split_on(x + y, sep) =~= p.update(p.len() - 1, p.last() + y));
    }
}

proof fn lemma_join_plain(f: Seq<Seq<u8>>)
    requires
        forall|i: int| 0 <= i < f.len() ==> plain_value(#[trigger] f[i]),
    ensures
        !join_fields(f).contains(NEWLINE),
        f.len() >= 1 ==> split_on(join_fields(f), COMMA) == f,
    decreases f.len(),
{
    if f.len() == 0 {
        assert(!join_fields(f).contains(NEWLINE)) by {
            assert(join_fields(f) =~= Seq::<u8>::empty());
        }
    } else if f.len() == 1 {
        assert(plain_value(f[0]));
        lemma_split_append(Seq::empty(), f[0], COMMA);
        assert(Seq::<u8>::empty() + f[0] =~= f[0]);
        assert(split_on(Seq::<u8>::empty(), COMMA) == seq![Seq::<u8>::empty()]);
        assert(split_on(f[0], COMMA) =~= f);
    } else {
        let f2 = f.drop_last();
        assert forall|i: int| 0 <= i < f2.len() implies plain_value(#[trigger] f2[i]) by {
            assert(f2[i] == f[i]);
        }
        lemma_join_plain(f2);
        let j2 = join_fields(f2);
        assert(plain_value(f[f.len() - 1]));
        let last = f.last();
        assert(join_fields(f) == j2.push(COMMA) + last);
        assert(!join_fields(f).contains(NEWLINE)) by {
            if join_fields(f).contains(NEWLINE) {
                let k = choose|k: int| 0 <= k < join_fields(f).len() && join_fields(f)[k] == NEWLINE;
                if k < j2.len() {
                    assert(j2[k] == NEWLINE);
                } else if k > j2.len() {
                    assert(last[k - j2.len() - 1] == NEWLINE);
                }
            }
        }
        lemma_split_append(j2.push(COMMA), last, COMMA);
        lemma_split_push_sep(j2, COMMA);
        assert(f2.push(Seq::empty()).update(f2.len() as int, Seq::<u8>::empty() + last) =~= f);
    }
}

proof fn lemma_split_render(recs: Seq<Seq<Seq<u8>>>)
    requires
        forall|i: int| 0 <= i < recs.len() ==> plain_record(#[trigger] recs[i]),
    ensures
        split_on(render_records(recs), NEWLINE) == lines_of(recs).push(Seq::empty()),
    decreases recs.len(),
{
    if recs.len() == 0 {
        assert(render_records(recs) =~= Seq::<u8>::empty());
        assert(lines_of(recs).push(Seq::empty()) =~= seq![Seq::<u8>::empty()]);
    } else {
        let r2 = recs.drop_last();
        assert forall|i: int| 0 <= i < r2.len() implies plain_record(#[trigger] r2[i]) by {
            assert(r2[i] == recs[i]);
        }
        lemma_split_render(r2);
        let big_r = render_records(r2);
        let j = join_fields(recs.last());
        assert(plain_record(recs[recs.len() - 1]));
        lemma_join_plain(recs.last());
        assert(render_records(recs) =~= (big_r + j).push(NEWLINE));
        lemma_split_push_sep(big_r + j, NEWLINE);
        lemma_split_append(big_r, j, NEWLINE);
        assert(lines_of(r2).push(Seq::empty()).update(lines_of(r2).len() as int, Seq::<u8>::empty() + j)
            =~= lines_of(recs));
    }
}

proof fn lemma_records_of_lines(recs: Seq<Seq<Seq<u8>>>)
    requires
        forall|i: int| 0 <= i < recs.len() ==> plain_record(#[trigger] recs[i]),
    ensures
        records_of(lines_of(recs)) == recs,
    decreases recs.len(),
{
    if recs.len() == 0 {
        assert(records_of(lines_of(recs)) =~= recs);
    } else {
        let r2 = recs.drop_last();
        assert forall|i: int| 0 <= i < r2.len() implies plain_record(#[trigger] r2[i]) by {
            assert(r2[i] == recs[i]);
        }
        lemma_records_of_lines(r2);
        assert(lines_of(recs).drop_last() =~= lines_of(r2));
        let j = join_fields(recs.last());
        assert(plain_record(recs[recs.len() - 1]));
        assert(strip_cr(j) == j);
        lemma_join_plain(recs.last());
        assert(r2.push(recs.last()) =~= recs);
    }
}

/// Rendering a table and loading the text into an empty store gives back the
/// same table, provided every row has one value per column and every line
/// reads back as written (see `plain_record`).
pub proof fn lemma_render_then_load(t: TableView)
    requires
        forall|i: int| 0 <= i < t.rows.len() ==> #[trigger] t.rows[i].len() == t.columns.len(),
        plain_record(t.columns),
        forall|i: int| 0 <= i < t.rows.len() ==> plain_record(#[trigger] t.rows[i]),
    ensures
        load_spec(None, render_records(seq![t.columns] + t.rows)) == (
            Ok::<usize, crate::error::EtlError>(t.rows.len() as usize),
            Some(t),
        ),
{
    let all = seq![t.columns] + t.rows;
    assert forall|i: int| 0 <= i < all.len() implies plain_record(#[trigger] all[i]) by {
        if i > 0 {
            assert(all[i] == t.rows[i - 1]);
        }
    }
    lemma_split_render(all);
    lemma_records_of_lines(all);
    let lines = lines_of(all);
    assert(lines.push(Seq::empty()).drop_last() =~= lines);
    assert(records_of(lines.push(Seq::empty())) == records_of(lines));
    assert(records(render_records(all)) == all);
    assert(widths_agree(all)) by {
        assert forall|i: int| 1 <= i < all.len() implies #[trigger] all[i].len() == all[0].len() by {
            assert(all[i] == t.rows[i - 1]);
        }
    }
    assert(all.drop_first() =~= t.rows);
}

} // verus!
