//! The shareholder manifest: a comma-delimited file whose header row names
//! the columns `Name`, `Shareholder account address` and `Amount`, and whose
//! records each carry one shareholder. Any malformed record rejects the whole
//! manifest. The grammar is deliberately plain delimited text: fields are
//! taken literally with no quoting, records end with a line feed or a
//! carriage return and line feed, blank records are skipped, and a file with
//! no records at all is an empty manifest whatever its header holds.
use vstd::prelude::*;
use vstd::utf8::{decode_utf8, valid_utf8};

use crate::numtext::parse_i64_spec;
use crate::numtext::parse_i64;
use crate::table::parse_table;
use crate::table::table_of;
use crate::text::utf8_to_string;
use crate::Fault;

verus! {

/// Comma, the manifest's field delimiter.
pub const COMMA: u8 = 44;

/// One shareholder record: a display name, the account address the tokens go
/// to, and the signed amount to transfer.
pub struct Shareholder {
    pub name: String,
    pub address: String,
    pub amount: i64,
}

/// The mathematical image of a shareholder record.
pub open spec fn sh_view(s: Shareholder) -> (Seq<char>, Seq<char>, i64) {
    (s.name@, s.address@, s.amount)
}

/// Whether a header field names the given column.
pub open spec fn is_col(f: Seq<u8>, name: Seq<char>) -> bool {
    valid_utf8(f) && decode_utf8(f) == name
}

/// First index whose field names the column, or `hdr.len()` if none does.
pub open spec fn col_index(hdr: Seq<Seq<u8>>, name: Seq<char>) -> int
    decreases hdr.len(),
{
    if hdr.len() == 0 {
        0
    } else if is_col(hdr[0], name) {
        0
    } else {
        1 + col_index(hdr.drop_first(), name)
    }
}

pub proof fn lemma_col_index_is(hdr: Seq<Seq<u8>>, name: Seq<char>, i: int)
    requires
        0 <= i <= hdr.len(),
        forall|k: int| 0 <= k < i ==> !is_col(#[trigger] hdr[k], name),
        i < hdr.len() ==> is_col(hdr[i], name),
    ensures
        col_index(hdr, name) == i,
    decreases hdr.len(),
{
    if hdr.len() != 0 && !is_col(hdr[0], name) {
        assert forall|k: int| 0 <= k < i - 1 implies !is_col(
            #[trigger] hdr.drop_first()[k],
            name,
        ) by {
            assert(hdr.drop_first()[k] == hdr[k + 1]);
        }
        if i - 1 < hdr.drop_first().len() {
            assert(hdr.drop_first()[i - 1] == hdr[i]);
        }
        lemma_col_index_is(hdr.drop_first(), name, i - 1);
    }
}

/// Whether a record row is well formed against a header of `hlen` columns
/// whose three required columns sit at `ni`, `ai` and `mi`.
pub open spec fn rec_ok(r: Seq<Seq<u8>>, hlen: int, ni: int, ai: int, mi: int) -> bool {
    &&& r.len() == hlen
    &&& valid_utf8(r[ni])
    &&& valid_utf8(r[ai])
    &&& parse_i64_spec(r[mi]) is Some
}

/// The shareholder a well-formed record denotes.
pub open spec fn rec_val(r: Seq<Seq<u8>>, ni: int, ai: int, mi: int) -> (
    Seq<char>,
    Seq<char>,
    i64,
) {
    (decode_utf8(r[ni]), decode_utf8(r[ai]), parse_i64_spec(r[mi]).unwrap())
}

/// A row read from a blank line: one empty field and nothing else.
pub open spec fn is_blank_row(r: Seq<Seq<u8>>) -> bool {
    r.len() == 1 && r[0].len() == 0
}

/// The manifest's rows: the file's table with its blank records skipped.
pub open spec fn manifest_rows(data: Seq<u8>) -> Seq<Seq<Seq<u8>>> {
    table_of(data, COMMA).filter(|r: Seq<Seq<u8>>| !is_blank_row(r))
}

/// What the manifest file denotes: `None` when the header lacks a required
/// column or any record is malformed, else the records in file order. A file
/// with no records denotes the empty list, whatever its header holds.
pub open spec fn manifest_spec(data: Seq<u8>) -> Option<Seq<(Seq<char>, Seq<char>, i64)>> {
    let t = manifest_rows(data);
    if t.len() <= 1 {
        Some(Seq::empty())
    } else {
        let hdr = t[0];
        let ni = col_index(hdr, "Name"@);
        let ai = col_index(hdr, "Shareholder account address"@);
        let mi = col_index(hdr, "Amount"@);
        if ni == hdr.len() || ai == hdr.len() || mi == hdr.len() {
            None
        } else if exists|i: int| 1 <= i < t.len() && !rec_ok(#[trigger] t[i], hdr.len() as int, ni, ai, mi) {
            None
        } else {
            Some(Seq::new((t.len() - 1) as nat, |i: int| rec_val(t[i + 1], ni, ai, mi)))
        }
    }
}

/// An owned copy of one row of fields.
fn copy_row(row: &Vec<Vec<u8>>) -> (r: Vec<Vec<u8>>)
    ensures
        r.deep_view() == row.deep_view(),
{
    let mut r: Vec<Vec<u8>> = Vec::new();
    let mut i: usize = 0;
    proof {
        assert(r.deep_view() =~= row.deep_view().take(0));
    }
    while i < row.len()
        invariant
            0 <= i <= row@.len(),
            r.deep_view() == row.deep_view().take(i as int),
        decreases row@.len() - i,
    {
        let ghost r_pre = r.deep_view();
        r.push(vstd::slice::slice_to_vec(row[i].as_slice()));
        proof {
            assert(row.deep_view()[i as int] =~= row@[i as int]@);
            assert(r.deep_view() =~~= r_pre + seq![row.deep_view()[i as int]]);
            assert(r.deep_view() =~= row.deep_view().take(i as int + 1));
        }
        i = i + 1;
    }
    proof {
        assert(row.deep_view().take(row@.len() as int) =~= row.deep_view());
    }
    r
}

/// First header field naming the column, or `hdr.len()` if none does.
fn find_col(hdr: &Vec<Vec<u8>>, name: &str) -> (r: usize)
    ensures
        r as int == col_index(hdr.deep_view(), name@),
        r <= hdr@.len(),
{
    let name_owned = name.to_owned();
    let mut i: usize = 0;
    while i < hdr.len()
        invariant
            0 <= i <= hdr@.len(),
            name_owned@ == name@,
            forall|k: int| 0 <= k < i ==> !is_col(#[trigger] hdr.deep_view()[k], name@),
        decreases hdr@.len() - i,
    {
        let decoded = utf8_to_string(hdr[i].as_slice());
        proof {
            assert(hdr.deep_view()[i as int] =~= hdr@[i as int]@);
        }
        match decoded {
            Some(s) => {
                if s == name_owned {
                    proof {
                        lemma_col_index_is(hdr.deep_view(), name@, i as int);
                    }
                    return i;
                }
            },
            None => {},
        }
        i = i + 1;
    }
    proof {
        lemma_col_index_is(hdr.deep_view(), name@, hdr.deep_view().len() as int);
    }
    hdr.len()
}

/// Parse the manifest bytes into shareholder records; any malformed header or
/// record rejects the whole file.
#[verifier::rlimit(50)]
pub fn parse_manifest(data: &[u8]) -> (r: Result<Vec<Shareholder>, Fault>)
    ensures
        (match r {
            Ok(v) => manifest_spec(data@) == Some(
                v@.map_values(|s: Shareholder| sh_view(s)),
            ),
            Err(f) => f == Fault::ManifestParseFailed && manifest_spec(data@) is None,
        }),
{
    let t_all = parse_table(data, COMMA);
    let ghost gt_all = table_of(data@, COMMA);
    let mut t: Vec<Vec<Vec<u8>>> = Vec::new();
    let mut j: usize = 0;
    proof {
        reveal(Seq::filter);
        assert(gt_all.take(0).filter(|r: Seq<Seq<u8>>| !is_blank_row(r)) =~= Seq::<
            Seq<Seq<u8>>,
        >::empty());
        assert(t.deep_view() =~= Seq::<Seq<Seq<u8>>>::empty());
    }
    while j < t_all.len()
        invariant
            0 <= j <= t_all@.len(),
            t_all.deep_view() == gt_all,
            t.deep_view() == gt_all.take(j as int).filter(|r: Seq<Seq<u8>>| !is_blank_row(r)),
        decreases t_all@.len() - j,
    {
        let row = &t_all[j];
        proof {
            reveal(Seq::filter);
            assert(row.deep_view() =~= gt_all[j as int]);
            assert(gt_all.take(j as int + 1).drop_last() =~= gt_all.take(j as int));
            assert(gt_all.take(j as int + 1).last() == gt_all[j as int]);
        }
        let blank = row.len() == 1 && row[0].len() == 0;
        proof {
            assert(row.deep_view().len() == row@.len());
            if row@.len() == 1 {
                assert(row.deep_view()[0] =~= row@[0]@);
            }
            assert(blank == is_blank_row(gt_all[j as int]));
        }
        if !blank {
            let ghost t_pre = t.deep_view();
            t.push(copy_row(row));
            proof {
                assert(t.deep_view() =~~= t_pre + seq![row.deep_view()]);
            }
        }
        j = j + 1;
    }
    proof {
        assert(gt_all.take(gt_all.len() as int) =~= gt_all);
    }
    let ghost gt = manifest_rows(data@);
    proof {
        assert(t.deep_view() == gt);
    }
    if t.len() <= 1 {
        let empty: Vec<Shareholder> = Vec::new();
        proof {
            assert(empty@.map_values(|s: Shareholder| sh_view(s)) =~= Seq::<(
                Seq<char>,
                Seq<char>,
                i64,
            )>::empty());
        }
        return Ok(empty);
    }
    let hdr = &t[0];
    proof {
        assert(hdr.deep_view() =~= gt[0]);
    }
    let ni = find_col(hdr, "Name");
    let ai = find_col(hdr, "Shareholder account address");
    let mi = find_col(hdr, "Amount");
    if ni == hdr.len() || ai == hdr.len() || mi == hdr.len() {
        return Err(Fault::ManifestParseFailed);
    }
    let hlen = hdr.len();
    let mut out: Vec<Shareholder> = Vec::new();
    let mut i: usize = 1;
    while i < t.len()
        invariant
            1 <= i <= t@.len(),
            t.deep_view() == gt,
            gt == manifest_rows(data@),
            gt.len() > 1,
            hlen as int == gt[0].len(),
            ni < gt[0].len() && ai < gt[0].len() && mi < gt[0].len(),
            ni as int == col_index(gt[0], "Name"@),
            ai as int == col_index(gt[0], "Shareholder account address"@),
            mi as int == col_index(gt[0], "Amount"@),
            forall|k: int|
                1 <= k < i ==> rec_ok(
                    #[trigger] gt[k],
                    gt[0].len() as int,
                    ni as int,
                    ai as int,
                    mi as int,
                ),
            out@.len() == i - 1,
            forall|k: int|
                0 <= k < i - 1 ==> sh_view(#[trigger] out@[k]) == rec_val(
                    gt[k + 1],
                    ni as int,
                    ai as int,
                    mi as int,
                ),
        decreases t@.len() - i,
    {
        let row = &t[i];
        proof {
            assert(row.deep_view() =~= gt[i as int]);
            assert(gt[i as int].len() == row@.len());
        }
        if row.len() != hlen {
            proof {
                assert((1 <= i as int) && ((i as int) < gt.len()) && !rec_ok(
                    gt[i as int],
                    gt[0].len() as int,
                    ni as int,
                    ai as int,
                    mi as int,
                ));
            }
            return Err(Fault::ManifestParseFailed);
        }
        proof {
            assert(row.deep_view()[ni as int] =~= row@[ni as int]@);
            assert(row.deep_view()[ai as int] =~= row@[ai as int]@);
            assert(row.deep_view()[mi as int] =~= row@[mi as int]@);
        }
        let name = match utf8_to_string(row[ni].as_slice()) {
            Some(s) => s,
            None => {
                proof {
                    assert((1 <= i as int) && ((i as int) < gt.len()) && !rec_ok(
                        gt[i as int],
                        gt[0].len() as int,
                        ni as int,
                        ai as int,
                        mi as int,
                    ));
                }
                return Err(Fault::ManifestParseFailed);
            },
        };
        let address = match utf8_to_string(row[ai].as_slice()) {
            Some(s) => s,
            None => {
                proof {
                    assert((1 <= i as int) && ((i as int) < gt.len()) && !rec_ok(
                        gt[i as int],
                        gt[0].len() as int,
                        ni as int,
                        ai as int,
                        mi as int,
                    ));
                }
                return Err(Fault::ManifestParseFailed);
            },
        };
        let amount = match parse_i64(row[mi].as_slice()) {
            Some(a) => a,
            None => {
                proof {
                    assert((1 <= i as int) && ((i as int) < gt.len()) && !rec_ok(
                        gt[i as int],
                        gt[0].len() as int,
                        ni as int,
                        ai as int,
                        mi as int,
                    ));
                }
                return Err(Fault::ManifestParseFailed);
            },
        };
        out.push(Shareholder { name, address, amount });
        i = i + 1;
    }
    proof {
        assert(manifest_spec(data@) == Some(
            Seq::new((gt.len() - 1) as nat, |k: int| rec_val(
                gt[k + 1],
                ni as int,
                ai as int,
                mi as int,
            )),
        ));
        assert(out@.map_values(|s: Shareholder| sh_view(s)) =~= Seq::new(
            (gt.len() - 1) as nat,
            |k: int| rec_val(gt[k + 1], ni as int, ai as int, mi as int),
        ));
    }
    Ok(out)
}

} // verus!
