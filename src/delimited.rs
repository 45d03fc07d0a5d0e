use vstd::prelude::*;
use crate::error::EtlError;

verus! {

pub const NEWLINE: u8 = 10;

pub const CARRIAGE_RETURN: u8 = 13;

pub const COMMA: u8 = 44;

/// The pieces of `s` between occurrences of `sep`; always at least one piece.
pub open spec fn split_on(s: Seq<u8>, sep: u8) -> Seq<Seq<u8>>
    decreases s.len(),
{
    if s.len() == 0 {
        seq![Seq::empty()]
    } else {
        let prev = split_on(s.drop_last(), sep);
        if s.last() == sep {
            prev.push(Seq::empty())
        } else {
            prev.update(prev.len() - 1, prev.last().push(s.last()))
        }
    }
}

/// A line without its trailing carriage return, if it has one.
pub open spec fn strip_cr(line: Seq<u8>) -> Seq<u8> {
    if line.len() > 0 && line.last() == CARRIAGE_RETURN {
        line.drop_last()
    } else {
        line
    }
}

/// The records that a sequence of lines holds: blank lines are skipped, and
/// every other line is split into its comma-separated fields.
pub open spec fn records_of(lines: Seq<Seq<u8>>) -> Seq<Seq<Seq<u8>>>
    decreases lines.len(),
{
    if lines.len() == 0 {
        seq![]
    } else {
        let prev = records_of(lines.drop_last());
        let line = strip_cr(lines.last());
        if line.len() == 0 {
            prev
        } else {
            prev.push(split_on(line, COMMA))
        }
    }
}

/// The records of a delimited text, header first.
pub open spec fn records(text: Seq<u8>) -> Seq<Seq<Seq<u8>>> {
    records_of(split_on(text, NEWLINE))
}

/// Every record has as many fields as the first one.
pub open spec fn widths_agree(recs: Seq<Seq<Seq<u8>>>) -> bool {
    forall|i: int| 1 <= i < recs.len() ==> #[trigger] recs[i].len() == recs[0].len()
}

/// Record `k` is the first whose width differs from the header's.
pub open spec fn is_first_bad(recs: Seq<Seq<Seq<u8>>>, k: int) -> bool {
    &&& 1 <= k < recs.len()
    &&& recs[k].len() != recs[0].len()
    &&& forall|j: int| 1 <= j < k ==> #[trigger] recs[j].len() == recs[0].len()
}

/// The error that names the first record whose width differs from the header's.
pub open spec fn width_error(recs: Seq<Seq<Seq<u8>>>) -> EtlError {
    let k = choose|k: int| is_first_bad(recs, k);
    EtlError::RowWidth { record: k as usize, expected: recs[0].len() as usize, found: recs[k].len() as usize }
}

pub proof fn lemma_first_bad_unique(recs: Seq<Seq<Seq<u8>>>, k: int, m: int)
    requires
        is_first_bad(recs, k),
        is_first_bad(recs, m),
    ensures
        k == m,
{
    if k < m {
        assert(recs[k].len() == recs[0].len());
    } else if m < k {
        assert(recs[m].len() == recs[0].len());
    }
}

/// A parsed delimited text: the header's column names and the data rows.
pub struct Delimited {
    pub header: Vec<Vec<u8>>,
    pub rows: Vec<Vec<Vec<u8>>>,
}

/// Splits the first `len` bytes of `s` at every `sep`.
pub fn split_bytes(s: &[u8], len: usize, sep: u8) -> (r: Vec<Vec<u8>>)
    requires
        len <= s@.len(),
    ensures
        r.deep_view() == split_on(s@.subrange(0, len as int), sep),
{
    let mut fields: Vec<Vec<u8>> = Vec::new();
    let mut cur: Vec<u8> = Vec::new();
    let mut i: usize = 0;
    proof {
        assert(s@.subrange(0, 0) =~= Seq::<u8>::empty());
        assert(cur.deep_view() =~= Seq::<u8>::empty());
        assert(fields.deep_view() =~= Seq::<Seq<u8>>::empty());
        assert(fields.deep_view().push(cur.deep_view()) =~= seq![Seq::<u8>::empty()]);
    }
    while i < len
        invariant
            i <= len,
            len <= s@.len(),
            fields.deep_view().push(cur.deep_view()) == split_on(s@.subrange(0, i as int), sep),
        decreases len - i,
    {
        let b = s[i];
        let ghost prev = split_on(s@.subrange(0, i as int), sep);
        proof {
            assert(s@.subrange(0, i + 1).drop_last() =~= s@.subrange(0, i as int));
            assert(prev.last() == cur.deep_view());
        }
        if b == sep {
            let ghost old_fields = fields.deep_view();
            fields.push(cur);
            cur = Vec::new();
            proof {
                assert(cur.deep_view() =~= Seq::<u8>::empty());
                assert(fields.deep_view() =~= old_fields.push(prev.last()));
                assert(fields.deep_view().push(cur.deep_view()) =~= prev.push(Seq::empty()));
            }
        } else {
            let ghost old_cur = cur.deep_view();
            cur.push(b);
            proof {
                assert(cur.deep_view() =~= old_cur.push(b));
                assert(fields.deep_view().push(cur.deep_view()) =~= prev.update(
                    prev.len() - 1,
                    prev.last().push(b),
                ));
            }
        }
        i = i + 1;
    }
    let ghost before = fields.deep_view();
    let ghost last = cur.deep_view();
    fields.push(cur);
    proof {
        assert(fields.deep_view() =~= before.push(last));
    }
    fields
}

/// Parses a delimited text with a header row. Blank lines are skipped, a
/// trailing carriage return is dropped from every line, and every record must
/// have as many fields as the header.
pub fn parse_delimited(text: &[u8]) -> (r: Result<Delimited, EtlError>)
    ensures
        match r {
            Ok(d) => {
                &&& records(text@).len() > 0
                &&& widths_agree(records(text@))
                &&& d.header.deep_view() == records(text@)[0]
                &&& d.rows.deep_view() == records(text@).drop_first()
            },
            Err(EtlError::MissingHeader) => records(text@).len() == 0,
            Err(EtlError::RowWidth { record, expected, found }) => {
                let recs = records(text@);
                &&& recs.len() > 0
                &&& !widths_agree(recs)
                &&& is_first_bad(recs, record as int)
                &&& expected == recs[0].len()
                &&& found == recs[record as int].len()
                &&& r == Err::<Delimited, EtlError>(width_error(recs))
            },
            Err(_) => false,
        },
{
    let lines = split_bytes(text, text.len(), NEWLINE);
    proof {
        assert(text@.subrange(0, text@.len() as int) =~= text@);
    }
    let ghost all = lines.deep_view();
    let mut recs: Vec<Vec<Vec<u8>>> = Vec::new();
    let mut i: usize = 0;
    proof {
        assert(all.take(0) =~= Seq::<Seq<u8>>::empty());
        assert(recs.deep_view() =~= Seq::<Seq<Seq<u8>>>::empty());
    }
    while i < lines.len()
        invariant
            i <= lines.len(),
            all == lines.deep_view(),
            all == split_on(text@, NEWLINE),
            recs.deep_view() == records_of(all.take(i as int)),
        decreases lines.len() - i,
    {
        let line = &lines[i];
        let n = line.len();
        let end: usize = if n > 0 && line[n - 1] == CARRIAGE_RETURN {
            n - 1
        } else {
            n
        };
        proof {
            assert(all.take(i + 1).drop_last() =~= all.take(i as int));
            assert(all.take(i + 1).last() == all[i as int]);
            assert(all[i as int] =~= line@);
            assert(strip_cr(line@) =~= line@.subrange(0, end as int));
        }
        if end > 0 {
            let fields = split_bytes(line.as_slice(), end, COMMA);
            let ghost before = recs.deep_view();
            recs.push(fields);
            proof {
                assert(recs.deep_view() =~= before.push(fields.deep_view()));
            }
        }
        i = i + 1;
    }
    proof {
        assert(all.take(all.len() as int) =~= all);
    }
    let ghost recs_view = recs.deep_view();
    if recs.len() == 0 {
        return Err(EtlError::MissingHeader);
    }
    let expected = recs[0].len();
    let mut j: usize = 1;
    while j < recs.len()
        invariant
            1 <= j <= recs.len(),
            recs_view == recs.deep_view(),
            recs_view == records(text@),
            expected == recs_view[0].len(),
            forall|k: int| 1 <= k < j ==> #[trigger] recs_view[k].len() == recs_view[0].len(),
        decreases recs.len() - j,
    {
        let found = recs[j].len();
        assert(recs_view[j as int].len() == found);
        if found != expected {
            proof {
                assert(is_first_bad(recs_view, j as int));
                let k = choose|k: int| is_first_bad(recs_view, k);
                lemma_first_bad_unique(recs_view, j as int, k);
            }
            return Err(EtlError::RowWidth { record: j, expected, found });
        }
        j = j + 1;
    }
    let header = recs.remove(0);
    proof {
        assert(header.deep_view() == recs_view[0]);
        assert(recs.deep_view() =~= recs_view.drop_first());
    }
    Ok(Delimited { header, rows: recs })
}

} // verus!
